//! The presence registry: a mapping from identity to last-known state with
//! time-based expiry, served through one combined upsert-and-query
//! operation.

use vstd::map::*;
use vstd::prelude::*;

use crate::clock;
use crate::record::PresenceRecord;
use crate::record::PresenceUpdate;
use crate::record::RecordView;
use crate::record::UpdateView;
use crate::record::record_of;

verus! {

/// Seconds of silence after which a presence record counts as logged out.
/// The longest allowed client push interval is 60 seconds, so the threshold
/// pads that with margin: a client pushing at its slowest allowed rate is
/// never spuriously evicted.
pub const EVICTION_THRESHOLD_SECONDS: i64 = 80;

/// Starting capacity hint for the registry's backing storage.
pub const INITIAL_CAPACITY_HINT: usize = 500;

/// A record last refreshed at `last_seen` is still considered online at
/// time `now` exactly when its silence lies strictly under the threshold.
pub open spec fn is_fresh(last_seen: int, now: int) -> bool {
    now - last_seen < EVICTION_THRESHOLD_SECONDS as int
}

/// The name sequence that a list of friend names denotes.
pub open spec fn names_of(friends: Seq<String>) -> Seq<Seq<char>> {
    friends.map_values(|s: String| s@)
}

/// The record views that a sequence of records denotes.
pub open spec fn views_of(records: Seq<PresenceRecord>) -> Seq<RecordView> {
    records.map_values(|r: PresenceRecord| r@)
}

/// The registry map after recording `u` at server time `now`: the record
/// under `u.name` is fully replaced, `last_seen` included.
pub open spec fn after_upsert(
    m: Map<Seq<char>, RecordView>,
    u: UpdateView,
    now: int,
) -> Map<Seq<char>, RecordView> {
    m.insert(u.name, record_of(u, now))
}

/// The registry map after an eviction sweep at time `now`: exactly the
/// fresh records survive, unchanged.
pub open spec fn after_sweep(
    m: Map<Seq<char>, RecordView>,
    now: int,
) -> Map<Seq<char>, RecordView> {
    Map::new(
        |k: Seq<char>| m.dom().contains(k) && is_fresh(m[k].last_seen, now),
        |k: Seq<char>| m[k],
    )
}

/// One full write step of the registry: upsert, then sweep, both at the
/// same server time.
pub open spec fn after_upsert_and_sweep(
    m: Map<Seq<char>, RecordView>,
    u: UpdateView,
    now: int,
) -> Map<Seq<char>, RecordView> {
    after_sweep(after_upsert(m, u, now), now)
}

/// `result` is a correct answer to a friend query against registry map
/// `m`: it lists, each exactly once and in no promised order, precisely
/// the records of `m` whose name is among `friends`.
pub open spec fn query_matches(
    m: Map<Seq<char>, RecordView>,
    friends: Seq<Seq<char>>,
    result: Seq<RecordView>,
) -> bool {
    &&& (forall|p: int|
        0 <= p < result.len() ==> {
            &&& m.dom().contains(#[trigger] result[p].name)
            &&& m[result[p].name] == result[p]
            &&& friends.contains(result[p].name)
        })
    &&& (forall|k: Seq<char>|
        #[trigger] m.dom().contains(k) && friends.contains(k) ==> exists|p: int|
            0 <= p < result.len() && #[trigger] result[p].name == k)
    &&& (forall|p: int, q: int|
        0 <= p < q < result.len() ==> result[p].name != result[q].name)
}

/// No two records in `s` share a name.
pub open spec fn distinct_names(s: Seq<PresenceRecord>) -> bool {
    forall|i: int, j: int|
        0 <= i < j < s.len() ==> (#[trigger] s[i]@.name) != (#[trigger] s[j]@.name)
}

/// The position in `s` of the record named `k`, when one exists.
spec fn index_of_name(s: Seq<PresenceRecord>, k: Seq<char>) -> int {
    choose|i: int| 0 <= i < s.len() && (#[trigger] s[i]@.name) == k
}

/// The mapping that a sequence of records denotes: each name held by some
/// record maps to that record's view.
spec fn map_of_records(s: Seq<PresenceRecord>) -> Map<Seq<char>, RecordView> {
    Map::new(
        |k: Seq<char>| exists|i: int| 0 <= i < s.len() && (#[trigger] s[i]@.name) == k,
        |k: Seq<char>| s[index_of_name(s, k)]@,
    )
}

proof fn lemma_index_of_name(s: Seq<PresenceRecord>, j: int)
    requires
        distinct_names(s),
        0 <= j < s.len(),
    ensures
        index_of_name(s, s[j]@.name) == j,
{
    let k = s[j]@.name;
    assert(0 <= j < s.len() && s[j]@.name == k);
    let i = index_of_name(s, k);
    assert(0 <= i < s.len() && s[i]@.name == k);
    if i < j {
        assert(s[i]@.name != s[j]@.name);
    } else if j < i {
        assert(s[j]@.name != s[i]@.name);
    }
}

/// A record of a well-formed sequence is the one its name retrieves.
proof fn lemma_map_of_records_at(s: Seq<PresenceRecord>, j: int)
    requires
        distinct_names(s),
        0 <= j < s.len(),
    ensures
        map_of_records(s).dom().contains(s[j]@.name),
        map_of_records(s)[s[j]@.name] == s[j]@,
{
    lemma_index_of_name(s, j);
}

/// The one error the registry itself can raise. Transport-level failures
/// (an unparseable payload, a poisoned lock) belong to the boundary layer,
/// not to the registry.
#[derive(Clone, Copy, PartialEq, Eq, Structural, Debug)]
pub enum PresenceError {
    /// The update carried an empty identity; nothing was stored.
    EmptyIdentity,
}

/// Everything one registry operation promises when it succeeds: the map
/// steps from `pre` to `post` by an upsert-and-sweep at time `now`, the
/// answer is exactly the fresh records of the listed friends, and no stale
/// record survives.
pub open spec fn upsert_outcome(
    pre: Map<Seq<char>, RecordView>,
    post: Map<Seq<char>, RecordView>,
    u: UpdateView,
    friends: Seq<Seq<char>>,
    result: Seq<RecordView>,
    now: int,
) -> bool {
    &&& post == after_upsert_and_sweep(pre, u, now)
    &&& query_matches(post, friends, result)
    &&& forall|k: Seq<char>| #[trigger] post.dom().contains(k) ==> is_fresh(post[k].last_seen, now)
}

/// Whether a record last refreshed at `last_seen` is still fresh at `now`.
/// The subtraction is widened so that no pair of clock readings can
/// overflow it.
fn fresh_at(last_seen: i64, now: i64) -> (b: bool)
    ensures
        b == is_fresh(last_seen as int, now as int),
{
    (now as i128) - (last_seen as i128) < (EVICTION_THRESHOLD_SECONDS as i128)
}

/// Whether `name` occurs in `names`.
fn contains_name(names: &Vec<String>, name: &String) -> (b: bool)
    ensures
        b == names_of(names@).contains(name@),
{
    let n = names.len();
    let mut i: usize = 0;
    while i < n
        invariant
            i <= n,
            n == names@.len(),
            forall|j: int| 0 <= j < i ==> (#[trigger] names@[j])@ != name@,
        decreases n - i,
    {
        if names[i] == *name {
            proof {
                assert(names_of(names@)[i as int] == name@);
            }
            return true;
        }
        i += 1;
    }
    proof {
        assert forall|j: int| 0 <= j < names_of(names@).len() implies (#[trigger] names_of(
            names@,
        )[j]) != name@ by {
            assert(names_of(names@)[j] == names@[j]@);
        }
    }
    false
}

/// The registry: the authoritative presence map. One record per identity;
/// stale records are removed by the sweep that every write performs.
///
/// Every operation takes the registry by exclusive reference, so the
/// upsert, the sweep and the query of one call form one atomic step: no
/// caller can observe a partially-updated map. A host that serves
/// concurrent requests wraps the registry in its own mutual-exclusion
/// primitive and treats a failure to acquire it as a fault of that one
/// request.
pub struct Registry {
    records: Vec<PresenceRecord>,
}

impl View for Registry {
    type V = Map<Seq<char>, RecordView>;

    closed spec fn view(&self) -> Map<Seq<char>, RecordView> {
        map_of_records(self.records@)
    }
}

impl Registry {
    /// Well-formedness: the backing storage holds at most one record per
    /// identity.
    pub closed spec fn wf(&self) -> bool {
        distinct_names(self.records@)
    }

    /// An empty registry.
    pub fn new() -> (r: Registry)
        ensures
            r.wf(),
            r@ == Map::<Seq<char>, RecordView>::empty(),
    {
        let records: Vec<PresenceRecord> = Vec::new();
        let r = Registry { records };
        proof {
            assert(r@ =~= Map::<Seq<char>, RecordView>::empty());
        }
        r
    }

    /// An empty registry with room reserved for `capacity` records.
    pub fn with_capacity(capacity: usize) -> (r: Registry)
        ensures
            r.wf(),
            r@ == Map::<Seq<char>, RecordView>::empty(),
    {
        let records: Vec<PresenceRecord> = Vec::with_capacity(capacity);
        let r = Registry { records };
        proof {
            assert(r@ =~= Map::<Seq<char>, RecordView>::empty());
        }
        r
    }

    /// How many identities are currently registered.
    pub fn len(&self) -> (n: usize)
        requires
            self.wf(),
        ensures
            n == self@.dom().len(),
    {
        proof {
            self.lemma_len_matches();
        }
        self.records.len()
    }

    /// Records `update` under its name at server time `now` — a full
    /// replacement, `last_seen` included — then sweeps every stale record
    /// out. One write step of the registry.
    #[verifier::rlimit(100)]
    fn upsert_and_sweep_at(&mut self, update: &PresenceUpdate, now: i64)
        requires
            old(self).wf(),
        ensures
            final(self).wf(),
            final(self)@ == after_upsert_and_sweep(old(self)@, update@, now as int),
    {
        let ghost orig = self.records@;
        let ghost u = update@;
        let ghost now_i = now as int;
        let mut kept: Vec<PresenceRecord> = Vec::new();
        kept.push(PresenceRecord::from_update(update, now));
        let ghost mut src: Seq<int> = Seq::empty();
        let ghost mut pos: Map<int, int> = Map::empty();
        let n = self.records.len();
        let mut i: usize = 0;
        while i < n
            invariant
                i <= n,
                n == self.records@.len(),
                self.records@ == orig,
                u == update@,
                now_i == now as int,
                kept@.len() == src.len() + 1,
                kept@[0]@ == record_of(u, now_i),
                forall|p: int|
                    0 <= p < src.len() ==> 0 <= #[trigger] src[p] < i && kept@[p + 1] == orig[src[p]]
                        && orig[src[p]]@.name != u.name && is_fresh(orig[src[p]]@.last_seen, now_i),
                forall|p: int, q: int| 0 <= p < q < src.len() ==> src[p] < src[q],
                forall|j: int|
                    0 <= j < i && (#[trigger] orig[j])@.name != u.name && is_fresh(
                        orig[j]@.last_seen,
                        now_i,
                    ) ==> pos.dom().contains(j) && 1 <= pos[j] < kept@.len() && kept@[pos[j]]
                        == orig[j],
            decreases n - i,
        {
            let same = self.records[i].name == update.name;
            let fresh = fresh_at(self.records[i].last_seen, now);
            if !same && fresh {
                let rec = self.records[i].clone();
                proof {
                    pos = pos.insert(i as int, kept@.len() as int);
                    src = src.push(i as int);
                }
                kept.push(rec);
            }
            i += 1;
        }
        self.records = kept;
        proof {
            let s = kept@;
            let m0 = map_of_records(orig);
            let m1 = after_upsert(m0, u, now_i);
            let target = after_sweep(m1, now_i);
            assert(distinct_names(orig));
            assert forall|p: int, q: int| 0 <= p < q < s.len() implies (#[trigger] s[p]@.name)
                != (#[trigger] s[q]@.name) by {
                if p == 0 {
                    assert(s[q] == orig[src[q - 1]]);
                } else {
                    assert(s[p] == orig[src[p - 1]]);
                    assert(s[q] == orig[src[q - 1]]);
                    assert(src[p - 1] < src[q - 1]);
                }
            }
            assert(distinct_names(s));
            assert_maps_equal!(map_of_records(s), target, k => {
                if map_of_records(s).dom().contains(k) {
                    let p = choose|p: int| 0 <= p < s.len() && (#[trigger] s[p]@.name) == k;
                    lemma_map_of_records_at(s, p);
                    if p == 0 {
                        assert(k == u.name);
                        assert(m1[k] == record_of(u, now_i));
                        assert(is_fresh(m1[k].last_seen, now_i));
                    } else {
                        let j = src[p - 1];
                        assert(s[p] == orig[j]);
                        lemma_map_of_records_at(orig, j);
                        assert(m0.dom().contains(k));
                        assert(m1[k] == m0[k]);
                        assert(is_fresh(m1[k].last_seen, now_i));
                    }
                    assert(target.dom().contains(k));
                    assert(map_of_records(s)[k] == target[k]);
                }
                if target.dom().contains(k) {
                    if k == u.name {
                        assert(s[0]@.name == k);
                    } else {
                        let j = choose|j: int|
                            0 <= j < orig.len() && (#[trigger] orig[j]@.name) == k;
                        lemma_map_of_records_at(orig, j);
                        assert(m1[k] == m0[k]);
                        assert(orig[j]@.name != u.name);
                        assert(is_fresh(orig[j]@.last_seen, now_i));
                        let p = pos[j];
                        assert(s[p]@.name == k);
                    }
                    assert(map_of_records(s).dom().contains(k));
                }
            });
            assert(self@ == target);
        }
    }

    /// The current records of every listed friend, in no promised order.
    /// A caller that lists itself sees its own record; no self-exclusion
    /// is applied.
    #[verifier::rlimit(100)]
    pub fn query(&self, friend_names: &Vec<String>) -> (result: Vec<PresenceRecord>)
        requires
            self.wf(),
        ensures
            query_matches(self@, names_of(friend_names@), views_of(result@)),
    {
        let ghost friends = names_of(friend_names@);
        let mut result: Vec<PresenceRecord> = Vec::new();
        let ghost mut src: Seq<int> = Seq::empty();
        let ghost mut pos: Map<int, int> = Map::empty();
        let n = self.records.len();
        let mut i: usize = 0;
        while i < n
            invariant
                i <= n,
                n == self.records@.len(),
                self.wf(),
                friends == names_of(friend_names@),
                result@.len() == src.len(),
                forall|p: int|
                    0 <= p < src.len() ==> 0 <= #[trigger] src[p] < i && result@[p]
                        == self.records@[src[p]] && friends.contains(
                        self.records@[src[p]]@.name,
                    ),
                forall|p: int, q: int| 0 <= p < q < src.len() ==> src[p] < src[q],
                forall|j: int|
                    0 <= j < i && friends.contains((#[trigger] self.records@[j])@.name)
                        ==> pos.dom().contains(j) && 0 <= pos[j] < result@.len() && result@[pos[j]]
                        == self.records@[j],
            decreases n - i,
        {
            if contains_name(friend_names, &self.records[i].name) {
                let rec = self.records[i].clone();
                proof {
                    pos = pos.insert(i as int, result@.len() as int);
                    src = src.push(i as int);
                }
                result.push(rec);
            }
            i += 1;
        }
        proof {
            let s = self.records@;
            let rs = views_of(result@);
            assert(distinct_names(s));
            assert forall|p: int| 0 <= p < rs.len() implies self@.dom().contains(
                #[trigger] rs[p].name,
            ) && self@[rs[p].name] == rs[p] && friends.contains(rs[p].name) by {
                let j = src[p];
                assert(result@[p] == s[j]);
                lemma_map_of_records_at(s, j);
                assert(rs[p] == result@[p]@);
            }
            assert forall|k: Seq<char>|
                #[trigger] self@.dom().contains(k) && friends.contains(k) implies exists|p: int|
                0 <= p < rs.len() && (#[trigger] rs[p].name) == k by {
                let j = choose|j: int| 0 <= j < s.len() && (#[trigger] s[j]@.name) == k;
                let p = pos[j];
                assert(result@[p] == s[j]);
                assert(rs[p].name == k);
            }
            assert forall|p: int, q: int| 0 <= p < q < rs.len() implies rs[p].name
                != rs[q].name by {
                assert(result@[p] == s[src[p]]);
                assert(result@[q] == s[src[q]]);
                assert(src[p] < src[q]);
            }
        }
        result
    }

    /// The registry's one public write operation, against a caller-chosen
    /// server time: validate the update's identity, record it, sweep out
    /// every stale record, then answer the friend query from the swept
    /// map. An update with an empty identity is rejected and nothing is
    /// stored.
    pub fn upsert_and_query_at(
        &mut self,
        update: &PresenceUpdate,
        friend_names: &Vec<String>,
        now: i64,
    ) -> (result: Result<Vec<PresenceRecord>, PresenceError>)
        requires
            old(self).wf(),
        ensures
            final(self).wf(),
            result is Err <==> update.name@.len() == 0,
            result matches Err(e) ==> e == PresenceError::EmptyIdentity && final(self)@ == old(
                self,
            )@,
            update.name@.len() > 0 ==> {
                &&& final(self)@ == after_upsert_and_sweep(old(self)@, update@, now as int)
                &&& result is Ok
                &&& query_matches(
                    final(self)@,
                    names_of(friend_names@),
                    views_of(result->Ok_0@),
                )
                &&& forall|k: Seq<char>| #[trigger]
                    final(self)@.dom().contains(k) ==> is_fresh(
                        final(self)@[k].last_seen,
                        now as int,
                    )
            },
    {
        if update.name.as_str().is_empty() {
            return Err(PresenceError::EmptyIdentity);
        }
        self.upsert_and_sweep_at(update, now);
        let result = self.query(friend_names);
        proof {
            let post = self@;
            assert forall|k: Seq<char>| #[trigger] post.dom().contains(k) implies is_fresh(
                post[k].last_seen,
                now as int,
            ) by {
                let m1 = after_upsert(old(self)@, update@, now as int);
                assert(post[k] == m1[k]);
            }
        }
        Ok(result)
    }

    /// The registry's public operation against the live server clock. The
    /// clock reading is taken once and drives both the stored `last_seen`
    /// and the sweep, so the caller's own record always survives its own
    /// call.
    pub fn upsert_and_query(
        &mut self,
        update: &PresenceUpdate,
        friend_names: &Vec<String>,
    ) -> (result: Result<Vec<PresenceRecord>, PresenceError>)
        requires
            old(self).wf(),
        ensures
            final(self).wf(),
            result is Err <==> update.name@.len() == 0,
            result matches Err(e) ==> e == PresenceError::EmptyIdentity && final(self)@ == old(
                self,
            )@,
            result matches Ok(list) ==> exists|now: int| #[trigger]
                upsert_outcome(
                    old(self)@,
                    final(self)@,
                    update@,
                    names_of(friend_names@),
                    views_of(list@),
                    now,
                ),
    {
        let now = clock::current_unix_seconds();
        let result = self.upsert_and_query_at(update, friend_names, now);
        proof {
            if update.name@.len() > 0 {
                assert(upsert_outcome(
                    old(self)@,
                    self@,
                    update@,
                    names_of(friend_names@),
                    views_of(result->Ok_0@),
                    now as int,
                ));
            }
        }
        result
    }

    proof fn lemma_len_matches(&self)
        requires
            self.wf(),
        ensures
            self@.dom().len() == self.records@.len(),
    {
        let s = self.records@;
        let names = s.map_values(|r: PresenceRecord| r@.name);
        assert(names.no_duplicates());
        names.unique_seq_to_set();
        assert(self@.dom() =~= names.to_set()) by {
            assert forall|k: Seq<char>| self@.dom().contains(k) implies names.to_set().contains(
                k,
            ) by {
                let i = choose|i: int| 0 <= i < s.len() && (#[trigger] s[i]@.name) == k;
                assert(names[i] == k);
            }
            assert forall|k: Seq<char>| names.to_set().contains(k) implies self@.dom().contains(
                k,
            ) by {
                let i = choose|i: int| 0 <= i < names.len() && names[i] == k;
                assert(s[i]@.name == k);
            }
        }
    }
}

} // verus!
