//! The registry's governing laws, each proved once and for all over the
//! registry's mathematical model.

use vstd::prelude::*;

use crate::record::RecordView;
use crate::record::UpdateView;
use crate::record::record_of;
use crate::registry::after_upsert;
use crate::registry::after_upsert_and_sweep;
use crate::registry::is_fresh;
use crate::registry::query_matches;

verus! {

/// Freshness invariant: immediately after any write step, every record
/// still in the registry is fresh at that step's time — no stale record
/// survives a sweep.
pub proof fn lemma_freshness_invariant(m: Map<Seq<char>, RecordView>, u: UpdateView, now: int)
    ensures
        forall|k: Seq<char>| #[trigger]
            after_upsert_and_sweep(m, u, now).dom().contains(k) ==> is_fresh(
                after_upsert_and_sweep(m, u, now)[k].last_seen,
                now,
            ),
{
    let m1 = after_upsert(m, u, now);
    assert forall|k: Seq<char>| #[trigger]
        after_upsert_and_sweep(m, u, now).dom().contains(k) implies is_fresh(
        after_upsert_and_sweep(m, u, now)[k].last_seen,
        now,
    ) by {
        assert(after_upsert_and_sweep(m, u, now)[k] == m1[k]);
    }
}

/// Self-visibility: a write step always leaves the writer's own record in
/// the registry, carrying exactly the just-submitted fields stamped with
/// the step's time; a caller that lists itself as a friend therefore sees
/// exactly that record in the answer.
pub proof fn lemma_self_visibility(
    m: Map<Seq<char>, RecordView>,
    u: UpdateView,
    friends: Seq<Seq<char>>,
    result: Seq<RecordView>,
    now: int,
)
    requires
        friends.contains(u.name),
        query_matches(after_upsert_and_sweep(m, u, now), friends, result),
    ensures
        after_upsert_and_sweep(m, u, now).dom().contains(u.name),
        after_upsert_and_sweep(m, u, now)[u.name] == record_of(u, now),
        exists|p: int| 0 <= p < result.len() && (#[trigger] result[p]) == record_of(u, now),
        forall|p: int|
            0 <= p < result.len() && (#[trigger] result[p]).name == u.name ==> result[p]
                == record_of(u, now),
{
    let post = after_upsert_and_sweep(m, u, now);
    let m1 = after_upsert(m, u, now);
    assert(m1[u.name] == record_of(u, now));
    assert(is_fresh(m1[u.name].last_seen, now));
    assert(post.dom().contains(u.name));
    assert(post[u.name] == record_of(u, now));
    let p = choose|p: int| 0 <= p < result.len() && (#[trigger] result[p].name) == u.name;
    assert(result[p] == post[u.name]);
}

/// Eviction: an identity whose record is absent or already stale is gone
/// after any other identity's write step, and cannot appear in that
/// step's answer.
pub proof fn lemma_eviction(
    m: Map<Seq<char>, RecordView>,
    u: UpdateView,
    friends: Seq<Seq<char>>,
    result: Seq<RecordView>,
    now: int,
    k: Seq<char>,
)
    requires
        k != u.name,
        m.dom().contains(k) ==> !is_fresh(m[k].last_seen, now),
        query_matches(after_upsert_and_sweep(m, u, now), friends, result),
    ensures
        !after_upsert_and_sweep(m, u, now).dom().contains(k),
        forall|p: int| 0 <= p < result.len() ==> (#[trigger] result[p]).name != k,
{
    let post = after_upsert_and_sweep(m, u, now);
    let m1 = after_upsert(m, u, now);
    assert(!post.dom().contains(k));
    assert forall|p: int| 0 <= p < result.len() implies (#[trigger] result[p]).name != k by {
        assert(post.dom().contains(result[p].name));
    }
}

/// Idempotent replace: two successive write steps for the same identity
/// leave exactly one record under it — the second step's fields and time
/// — and never grow the registry.
pub proof fn lemma_idempotent_replace(
    m: Map<Seq<char>, RecordView>,
    u1: UpdateView,
    u2: UpdateView,
    t1: int,
    t2: int,
)
    requires
        u1.name == u2.name,
    ensures
        ({
            let m1 = after_upsert_and_sweep(m, u1, t1);
            let m2 = after_upsert_and_sweep(m1, u2, t2);
            &&& m2.dom().contains(u2.name)
            &&& m2[u2.name] == record_of(u2, t2)
            &&& m2.dom().subset_of(m1.dom())
            &&& m1.dom().finite() ==> m2.dom().finite() && m2.dom().len() <= m1.dom().len()
        }),
{
    let m1 = after_upsert_and_sweep(m, u1, t1);
    let m2 = after_upsert_and_sweep(m1, u2, t2);
    assert(after_upsert(m, u1, t1)[u1.name] == record_of(u1, t1));
    assert(is_fresh(after_upsert(m, u1, t1)[u1.name].last_seen, t1));
    assert(m1.dom().contains(u1.name));
    assert(after_upsert(m1, u2, t2)[u2.name] == record_of(u2, t2));
    assert(is_fresh(after_upsert(m1, u2, t2)[u2.name].last_seen, t2));
    assert(m2.dom().contains(u2.name));
    assert(m2[u2.name] == record_of(u2, t2));
    assert forall|k: Seq<char>| #[trigger] m2.dom().contains(k) implies m1.dom().contains(k) by {
        assert(after_upsert(m1, u2, t2).dom().contains(k));
        if k == u2.name {
        } else {
            assert(m1.dom().contains(k));
        }
    }
    if m1.dom().finite() {
        vstd::set_lib::lemma_len_subset(m2.dom(), m1.dom());
    }
}

/// No lost update: a write step for one identity preserves, untouched,
/// the still-fresh record of every other identity. Together with the
/// exclusive critical section around each write step, this is why
/// overlapping calls for distinct identities cannot lose or corrupt each
/// other's records.
pub proof fn lemma_no_lost_update(
    m: Map<Seq<char>, RecordView>,
    u: UpdateView,
    now: int,
    k: Seq<char>,
)
    requires
        k != u.name,
        m.dom().contains(k),
        is_fresh(m[k].last_seen, now),
    ensures
        after_upsert_and_sweep(m, u, now).dom().contains(k),
        after_upsert_and_sweep(m, u, now)[k] == m[k],
{
    let m1 = after_upsert(m, u, now);
    assert(m1[k] == m[k]);
}

/// Friend filter: an identity appears in a correct answer exactly when
/// its record is in the registry map and its name is listed, and then the
/// answer carries that record.
pub proof fn lemma_friend_filter(
    m: Map<Seq<char>, RecordView>,
    friends: Seq<Seq<char>>,
    result: Seq<RecordView>,
    k: Seq<char>,
)
    requires
        query_matches(m, friends, result),
    ensures
        (exists|p: int| 0 <= p < result.len() && (#[trigger] result[p]).name == k) <==> (
        m.dom().contains(k) && friends.contains(k)),
        forall|p: int|
            0 <= p < result.len() && (#[trigger] result[p]).name == k ==> result[p] == m[k],
{
    if exists|p: int| 0 <= p < result.len() && (#[trigger] result[p]).name == k {
        let p = choose|p: int| 0 <= p < result.len() && (#[trigger] result[p].name) == k;
        assert(m.dom().contains(result[p].name));
        assert(friends.contains(result[p].name));
    }
    if m.dom().contains(k) && friends.contains(k) {
        let p = choose|p: int| 0 <= p < result.len() && (#[trigger] result[p].name) == k;
    }
}

} // verus!
