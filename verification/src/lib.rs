//! An in-memory presence registry for connected game clients.
//!
//! Each client periodically pushes its own state and, in the same call,
//! asks which of its named friends are currently online. The registry
//! records the caller's state under its identity, evicts every record that
//! has been silent past the threshold, and returns the surviving records
//! of the listed friends — all as one operation.
//!
//! The registry is purely in-memory: it starts empty and holds no state
//! across restarts. Absence of an identity is inferred purely from
//! silence; there is no explicit logout signal.

mod clock;
pub mod laws;
pub mod record;
pub mod registry;
