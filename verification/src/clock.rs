//! The server clock. Eviction decisions are driven by this clock alone,
//! never by anything a client supplies.

use vstd::prelude::*;

verus! {

/// Relies on `jiff::Timestamp::now` and `jiff::Timestamp::as_second`: the
/// server clock's current reading, truncated to whole seconds since the
/// Unix epoch. The result depends on the wall clock, so nothing is promised
/// of it; callers state what holds of every reading. `Timestamp::now`
/// panics only when the system clock is outside jiff's representable span.
#[verifier::external_body]
pub(crate) fn current_unix_seconds() -> (r: i64) {
    jiff::Timestamp::now().as_second()
}

} // verus!
