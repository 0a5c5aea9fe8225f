//! The iterative lookup engine: a `Lookup` is the transient state machine of
//! one in-flight FIND_NODE or FIND_VALUE operation. It tracks which peers
//! were asked, which answers are outstanding, and the candidate set ordered
//! by distance to the target; rounds of up to `ALPHA` parallel requests
//! drive it until no closer candidate turns up for `NO_IMPROVEMENT_LIMIT`
//! consecutive rounds, the candidate set is exhausted, a value short-circuits
//! a FIND_VALUE, or the deadline expires.

use vstd::prelude::*;
use crate::dist::{spec_distance, distance};
use crate::table::{Contact, ContactData, seq_has_view, sorted_by_dist, bucket_has_id};
use crate::store::Record;
use crate::{K, ALPHA, NO_IMPROVEMENT_LIMIT, QUERY_TIMEOUT_MS};

verus! {

/// Whether `id` occurs in the sequence.
pub open spec fn id_in(s: Seq<u64>, id: u64) -> bool {
    exists|i: int| 0 <= i < s.len() && s[i] == id
}

/// No identifier occurs twice.
pub open spec fn ids_unique(s: Seq<u64>) -> bool {
    forall|i: int, j: int| 0 <= i < j < s.len() ==> s[i] != s[j]
}

/// No two contacts share an identifier.
pub open spec fn contact_ids_unique(s: Seq<Contact>) -> bool {
    forall|i: int, j: int| 0 <= i < j < s.len() ==> s[i].id != s[j].id
}

/// Looks up the position of `id` in the vector.
pub(crate) fn find_id(s: &Vec<u64>, id: u64) -> (r: Option<usize>)
    ensures
        match r {
            Some(i) => i < s@.len() && s@[i as int] == id,
            None => !id_in(s@, id),
        },
{
    let mut i: usize = 0;
    while i < s.len()
        invariant
            i <= s@.len(),
            forall|q: int| 0 <= q < i ==> s@[q] != id,
        decreases s@.len() - i,
    {
        if s[i] == id {
            return Some(i);
        }
        i = i + 1;
    }
    None
}

/// Removes the occurrence of `id`, if any, from a duplicate-free sequence,
/// and reports whether it was present.
pub(crate) fn take_out_id(s: &mut Vec<u64>, id: u64) -> (was_in: bool)
    requires
        ids_unique(old(s)@),
    ensures
        ids_unique(final(s)@),
        !id_in(final(s)@, id),
        was_in == id_in(old(s)@, id),
        forall|x: u64| x != id ==> id_in(final(s)@, x) == id_in(old(s)@, x),
        id_in(old(s)@, id) ==> final(s)@.len() == old(s)@.len() - 1,
        !id_in(old(s)@, id) ==> final(s)@ == old(s)@,
        forall|q: int| 0 <= q < final(s)@.len() ==> id_in(old(s)@, #[trigger] final(s)@[q]),
{
    let found = find_id(s, id);
    match found {
        None => false,
        Some(i) => {
            let ghost prev = s@;
            let _ = s.remove(i);
            proof {
                assert forall|q: int| 0 <= q < s@.len() implies s@[q] == prev[if q < i {
                    q
                } else {
                    q + 1
                }] by {
                    assert(s@[q] == prev.remove(i as int)[q]);
                }
                assert forall|a: int, b: int| 0 <= a < b < s@.len() implies s@[a] != s@[b] by {
                    let pa = if a < i { a } else { a + 1 };
                    let pb = if b < i { b } else { b + 1 };
                    assert(prev[pa] != prev[pb]);
                }
                assert forall|q: int| 0 <= q < s@.len() implies s@[q] != id by {
                    let pq = if q < i { q } else { q + 1 };
                    assert(s@[q] == prev[pq]);
                    if pq != i {
                        assert(prev[pq] != prev[i as int]);
                    }
                }
                assert forall|x: u64| x != id && id_in(prev, x) implies id_in(s@, x) by {
                    let q = choose|q: int| 0 <= q < prev.len() && prev[q] == x;
                    if q < i {
                        assert(s@[q] == x);
                    } else {
                        assert(s@[q - 1] == x);
                    }
                }
                assert forall|x: u64| x != id && id_in(s@, x) implies id_in(prev, x) by {
                    let q = choose|q: int| 0 <= q < s@.len() && s@[q] == x;
                    let pq = if q < i { q } else { q + 1 };
                    assert(prev[pq] == x);
                }
                assert forall|q: int| 0 <= q < s@.len() implies id_in(
                    prev,
                    #[trigger] s@[q],
                ) by {
                    let pq = if q < i { q } else { q + 1 };
                    assert(prev[pq] == s@[q]);
                }
            }
            true
        },
    }
}

/// Inserts a contact into a distance-sorted, duplicate-free candidate
/// sequence; a contact whose identifier is already present is discarded.
fn merge_candidate(target: u64, cands: &mut Vec<Contact>, c: Contact)
    requires
        sorted_by_dist(target, old(cands)@),
        contact_ids_unique(old(cands)@),
    ensures
        sorted_by_dist(target, final(cands)@),
        contact_ids_unique(final(cands)@),
        bucket_has_id(final(cands)@, c.id),
        final(cands)@.len() >= old(cands)@.len(),
        bucket_has_id(old(cands)@, c.id) ==> final(cands)@ == old(cands)@,
        !bucket_has_id(old(cands)@, c.id) ==> exists|p: int|
            0 <= p <= old(cands)@.len() && final(cands)@ == old(cands)@.insert(p, c),
        forall|x: u64|
            bucket_has_id(final(cands)@, x) <==> (bucket_has_id(old(cands)@, x) || x == c.id),
{
    let mut i: usize = 0;
    while i < cands.len()
        invariant
            i <= cands@.len(),
            cands@ == old(cands)@,
            sorted_by_dist(target, cands@),
            contact_ids_unique(cands@),
            forall|q: int| 0 <= q < i ==> cands@[q].id != c.id,
        decreases cands@.len() - i,
    {
        if cands[i].id == c.id {
            return ;
        }
        i = i + 1;
    }
    let dx = distance(c.id, target);
    let mut p: usize = 0;
    while p < cands.len() && distance(cands[p].id, target) <= dx
        invariant
            p <= cands@.len(),
            cands@ == old(cands)@,
            dx == spec_distance(c.id, target),
            forall|q: int| 0 <= q < p ==> spec_distance((#[trigger] cands@[q]).id, target) <= dx,
        decreases cands@.len() - p,
    {
        p = p + 1;
    }
    let ghost prev = cands@;
    proof {
        assert forall|q: int| p <= q < prev.len() implies spec_distance(
            (#[trigger] prev[q]).id,
            target,
        ) > dx by {
            assert(spec_distance(prev[p as int].id, target) <= spec_distance(prev[q].id, target));
        }
    }
    cands.insert(p, c);
    proof {
        let cur = cands@;
        assert(cur == prev.insert(p as int, c));
        assert forall|a: int, b: int| 0 <= a < b < cur.len() implies spec_distance(
            cur[a].id,
            target,
        ) <= spec_distance(cur[b].id, target) by {
            if a != p {
                assert(cur[a] == prev[if a < p { a } else { a - 1 }]);
            }
            if b != p {
                assert(cur[b] == prev[if b < p { b } else { b - 1 }]);
            }
        }
        assert forall|a: int, b: int| 0 <= a < b < cur.len() implies cur[a].id != cur[b].id by {
            if a != p && b != p {
                assert(cur[a] == prev[if a < p { a } else { a - 1 }]);
                assert(cur[b] == prev[if b < p { b } else { b - 1 }]);
            } else {
                let o = if a == p { b } else { a };
                let po = if o < p { o } else { o - 1 };
                assert(cur[o] == prev[po]);
            }
        }
        assert(bucket_has_id(cur, c.id)) by {
            assert(cur[p as int].id == c.id);
        }
        assert forall|x: u64| bucket_has_id(cur, x) implies (bucket_has_id(prev, x) || x
            == c.id) by {
            let q = choose|q: int| 0 <= q < cur.len() && cur[q].id == x;
            if q != p {
                assert(cur[q] == prev[if q < p { q } else { q - 1 }]);
            }
        }
        assert forall|x: u64| bucket_has_id(prev, x) implies bucket_has_id(cur, x) by {
            let q = choose|q: int| 0 <= q < prev.len() && prev[q].id == x;
            if q < p {
                assert(cur[q].id == x);
            } else {
                assert(cur[q + 1].id == x);
            }
        }
    }
}

/// Elements that survive a removal from the awaited set are still among the
/// queried peers.
proof fn lemma_pending_subset(oldq: Seq<u64>, oldp: Seq<u64>, newp: Seq<u64>)
    requires
        forall|i: int| 0 <= i < oldp.len() ==> id_in(oldq, #[trigger] oldp[i]),
        forall|q: int| 0 <= q < newp.len() ==> id_in(oldp, #[trigger] newp[q]),
    ensures
        forall|i: int| 0 <= i < newp.len() ==> id_in(oldq, #[trigger] newp[i]),
{
    assert forall|i: int| 0 <= i < newp.len() implies id_in(oldq, #[trigger] newp[i]) by {
        let w = choose|w: int| 0 <= w < oldp.len() && oldp[w] == newp[i];
        assert(id_in(oldq, oldp[w]));
    }
}

/// The two lookup shapes: converging on the closest peers to a target, or
/// retrieving a value that any peer on the way may return directly.
pub enum LookupKind {
    FindNode,
    FindValue,
}

/// The state of one in-flight iterative lookup.
pub struct Lookup {
    /// What this lookup is for.
    pub kind: LookupKind,
    /// The identifier the lookup converges on.
    pub target: u64,
    /// Candidate contacts, deduplicated and sorted ascending by distance to
    /// the target.
    pub candidates: Vec<Contact>,
    /// Peers that were already sent a request.
    pub queried: Vec<u64>,
    /// Peers whose answer is still outstanding.
    pub pending: Vec<u64>,
    /// Smallest distance to the target seen so far.
    pub best_dist: u64,
    /// Consecutive completed rounds that brought no closer candidate.
    pub stale_rounds: u32,
    /// The moment the query gives up and finalizes with a partial result.
    pub deadline: u64,
    /// Whether the lookup has terminated.
    pub done: bool,
    /// The value a FIND_VALUE lookup retrieved, if any.
    pub found: Option<Record>,
}

impl Lookup {
    /// Internal invariant of a lookup.
    pub open spec fn wf(&self) -> bool {
        &&& sorted_by_dist(self.target, self.candidates@)
        &&& contact_ids_unique(self.candidates@)
        &&& ids_unique(self.pending@)
        &&& forall|i: int|
            0 <= i < self.pending@.len() ==> id_in(self.queried@, #[trigger] self.pending@[i])
        &&& self.stale_rounds <= NO_IMPROVEMENT_LIMIT
        &&& (self.stale_rounds == NO_IMPROVEMENT_LIMIT ==> self.done)
    }

    /// Starts a lookup seeded from the routing table's closest contacts.
    pub fn new(kind: LookupKind, target: u64, seed: Vec<Contact>, now: u64) -> (q: Lookup)
        requires
            now <= u64::MAX - QUERY_TIMEOUT_MS,
        ensures
            q.wf(),
            q.kind == kind,
            q.target == target,
            q.deadline == now + QUERY_TIMEOUT_MS,
            !q.done,
            q.found is None,
            q.stale_rounds == 0,
            q.queried@.len() == 0,
            q.pending@.len() == 0,
            forall|i: int|
                0 <= i < seed@.len() ==> bucket_has_id(q.candidates@, (#[trigger] seed@[i]).id),
            seed@.len() == 0 ==> q.candidates@.len() == 0,
    {
        let mut candidates: Vec<Contact> = Vec::new();
        let mut i: usize = 0;
        while i < seed.len()
            invariant
                i <= seed@.len(),
                sorted_by_dist(target, candidates@),
                contact_ids_unique(candidates@),
                forall|q: int|
                    0 <= q < i ==> bucket_has_id(candidates@, (#[trigger] seed@[q]).id),
                i == 0 ==> candidates@.len() == 0,
                candidates@.len() <= i,
            decreases seed@.len() - i,
        {
            merge_candidate(target, &mut candidates, seed[i].duplicate());
            i = i + 1;
        }
        let best_dist: u64 = if candidates.len() > 0 {
            distance(candidates[0].id, target)
        } else {
            u64::MAX
        };
        Lookup {
            kind,
            target,
            candidates,
            queried: Vec::new(),
            pending: Vec::new(),
            best_dist,
            stale_rounds: 0,
            deadline: now + QUERY_TIMEOUT_MS,
            done: false,
            found: None,
        }
    }

    /// Selects up to `ALPHA` not-yet-queried candidates closest to the
    /// target, marks them queried and awaited, and hands them back for the
    /// caller to contact. When no candidate is left to ask and nothing is
    /// outstanding, the candidate set is exhausted and the lookup
    /// terminates.
    pub fn start_round(&mut self) -> (reqs: Vec<Contact>)
        requires
            old(self).wf(),
        ensures
            final(self).wf(),
            final(self).kind == old(self).kind,
            final(self).target == old(self).target,
            final(self).deadline == old(self).deadline,
            final(self).found == old(self).found,
            final(self).candidates@ == old(self).candidates@,
            final(self).stale_rounds == old(self).stale_rounds,
            old(self).done ==> *final(self) == *old(self) && reqs@.len() == 0,
            reqs@.len() <= ALPHA,
            forall|i: int|
                0 <= i < reqs@.len() ==> seq_has_view(old(self).candidates@, (
                #[trigger] reqs@[i])@) && !id_in(old(self).queried@, reqs@[i].id),
            contact_ids_unique(reqs@),
            !old(self).done ==> final(self).queried@ == old(self).queried@ + reqs@.map_values(
                |c: Contact| c.id,
            ),
            !old(self).done ==> final(self).pending@ == old(self).pending@ + reqs@.map_values(
                |c: Contact| c.id,
            ),
            !old(self).done ==> final(self).done == (reqs@.len() == 0
                && old(self).pending@.len() == 0),
            !old(self).done && reqs@.len() < ALPHA ==> forall|q: int|
                0 <= q < old(self).candidates@.len() && !id_in(
                    old(self).queried@,
                    (#[trigger] old(self).candidates@[q]).id,
                ) ==> id_in(reqs@.map_values(|c: Contact| c.id), old(self).candidates@[q].id),
            forall|a: int, q: int|
                0 <= a < reqs@.len() && 0 <= q < old(self).candidates@.len() && !id_in(
                    old(self).queried@,
                    (#[trigger] old(self).candidates@[q]).id,
                ) && !id_in(reqs@.map_values(|c: Contact| c.id), old(self).candidates@[q].id)
                ==> spec_distance((#[trigger] reqs@[a]).id, old(self).target) <= spec_distance(
                    old(self).candidates@[q].id,
                    old(self).target,
                ),
    {
        if self.done {
            return Vec::new();
        }
        let mut reqs: Vec<Contact> = Vec::new();
        let mut i: usize = 0;
        while i < self.candidates.len() && reqs.len() < ALPHA
            invariant
                *self == *old(self),
                i <= self.candidates@.len(),
                reqs@.len() <= ALPHA,
                forall|a: int|
                    0 <= a < reqs@.len() ==> exists|q: int|
                        0 <= q < i && (#[trigger] reqs@[a])@ == self.candidates@[q]@,
                forall|a: int|
                    0 <= a < reqs@.len() ==> !id_in(self.queried@, (#[trigger] reqs@[a]).id),
                contact_ids_unique(reqs@),
                contact_ids_unique(self.candidates@),
                forall|q: int|
                    0 <= q < i && !id_in(self.queried@, (#[trigger] self.candidates@[q]).id)
                        ==> id_in(reqs@.map_values(|c: Contact| c.id), self.candidates@[q].id),
            decreases self.candidates@.len() - i,
        {
            let already = find_id(&self.queried, self.candidates[i].id);
            if already.is_none() {
                let ghost prevreqs = reqs@;
                proof {
                    assert forall|a: int| 0 <= a < prevreqs.len() implies prevreqs[a].id != self
                        .candidates@[i as int].id by {
                        let q = choose|q: int|
                            0 <= q < i && prevreqs[a]@ == self.candidates@[q]@;
                        assert(self.candidates@[q].id != self.candidates@[i as int].id);
                    }
                }
                reqs.push(self.candidates[i].duplicate());
                proof {
                    assert forall|a: int, b: int| 0 <= a < b < reqs@.len() implies reqs@[a].id
                        != reqs@[b].id by {
                        if b < prevreqs.len() {
                            assert(reqs@[a] == prevreqs[a]);
                            assert(reqs@[b] == prevreqs[b]);
                        } else {
                            assert(reqs@[a] == prevreqs[a]);
                            assert(reqs@[b].id == self.candidates@[i as int].id);
                        }
                    }
                    assert forall|a: int| 0 <= a < reqs@.len() implies exists|q: int|
                        0 <= q < i + 1 && (#[trigger] reqs@[a])@ == self.candidates@[q]@ by {
                        if a < prevreqs.len() {
                            assert(reqs@[a] == prevreqs[a]);
                            let q = choose|q: int|
                                0 <= q < i && prevreqs[a]@ == self.candidates@[q]@;
                            assert(reqs@[a]@ == self.candidates@[q]@);
                        } else {
                            assert(reqs@[a]@ == self.candidates@[i as int]@);
                        }
                    }
                    assert forall|q: int|
                        0 <= q < i + 1 && !id_in(
                            self.queried@,
                            (#[trigger] self.candidates@[q]).id,
                        ) implies id_in(
                        reqs@.map_values(|c: Contact| c.id),
                        self.candidates@[q].id,
                    ) by {
                        let ids = reqs@.map_values(|c: Contact| c.id);
                        let ids_prev = prevreqs.map_values(|c: Contact| c.id);
                        if q < i {
                            let w = choose|w: int|
                                0 <= w < ids_prev.len() && ids_prev[w] == self.candidates@[q].id;
                            assert(ids[w] == reqs@[w].id);
                            assert(reqs@[w] == prevreqs[w]);
                            assert(ids[w] == self.candidates@[q].id);
                        } else {
                            assert(ids[ids.len() - 1] == self.candidates@[i as int].id);
                        }
                    }
                }
            }
            i = i + 1;
        }
        proof {
            if reqs@.len() < ALPHA {
                assert(i == self.candidates@.len());
            }
            assert forall|a: int, q: int|
                0 <= a < reqs@.len() && 0 <= q < self.candidates@.len() && !id_in(
                    self.queried@,
                    (#[trigger] self.candidates@[q]).id,
                ) && !id_in(reqs@.map_values(|c: Contact| c.id), self.candidates@[q].id) implies
                spec_distance((#[trigger] reqs@[a]).id, self.target) <= spec_distance(
                self.candidates@[q].id,
                self.target,
            ) by {
                let qa = choose|qa: int| 0 <= qa < i && reqs@[a]@ == self.candidates@[qa]@;
                assert(q >= i);
                assert(reqs@[a].id == self.candidates@[qa].id);
                assert(spec_distance(self.candidates@[qa].id, self.target) <= spec_distance(
                    self.candidates@[q].id,
                    self.target,
                ));
            }
        }
        if reqs.len() == 0 {
            if self.pending.len() == 0 {
                self.done = true;
            }
            proof {
                assert(reqs@.map_values(|c: Contact| c.id) =~= Seq::<u64>::empty());
                assert(self.queried@ =~= old(self).queried@ + reqs@.map_values(
                    |c: Contact| c.id,
                ));
                assert(self.pending@ =~= old(self).pending@ + reqs@.map_values(
                    |c: Contact| c.id,
                ));
            }
            return reqs;
        }
        let mut j: usize = 0;
        while j < reqs.len()
            invariant
                j <= reqs@.len(),
                reqs@.len() <= ALPHA,
                self.kind == old(self).kind,
                self.target == old(self).target,
                self.deadline == old(self).deadline,
                self.found == old(self).found,
                self.candidates@ == old(self).candidates@,
                self.stale_rounds == old(self).stale_rounds,
                self.best_dist == old(self).best_dist,
                self.done == old(self).done,
                old(self).wf(),
                contact_ids_unique(reqs@),
                forall|a: int|
                    0 <= a < reqs@.len() ==> !id_in(old(self).queried@, (#[trigger] reqs@[a]).id),
                self.queried@ == old(self).queried@ + reqs@.map_values(|c: Contact| c.id).take(
                    j as int,
                ),
                self.pending@ == old(self).pending@ + reqs@.map_values(|c: Contact| c.id).take(
                    j as int,
                ),
            decreases reqs@.len() - j,
        {
            let id = reqs[j].id;
            self.queried.push(id);
            self.pending.push(id);
            proof {
                let ids = reqs@.map_values(|c: Contact| c.id);
                assert(self.queried@ =~= old(self).queried@ + ids.take(j + 1));
                assert(self.pending@ =~= old(self).pending@ + ids.take(j + 1));
            }
            j = j + 1;
        }
        proof {
            let ids = reqs@.map_values(|c: Contact| c.id);
            assert(ids.take(reqs@.len() as int) =~= ids);
            assert(self.queried@ == old(self).queried@ + ids);
            assert(self.pending@ == old(self).pending@ + ids);
            assert(ids_unique(self.pending@)) by {
                assert forall|a: int, b: int|
                    0 <= a < b < self.pending@.len() implies self.pending@[a] != self
                    .pending@[b] by {
                    let ol = old(self).pending@.len() as int;
                    if b >= ol {
                        assert(self.pending@[b] == ids[b - ol]);
                        assert(ids[b - ol] == reqs@[b - ol].id);
                        if a >= ol {
                            assert(self.pending@[a] == reqs@[a - ol].id);
                        } else {
                            assert(id_in(old(self).queried@, old(self).pending@[a]));
                            assert(!id_in(old(self).queried@, reqs@[b - ol].id));
                        }
                    }
                }
            }
            assert forall|i2: int| 0 <= i2 < self.pending@.len() implies id_in(
                self.queried@,
                #[trigger] self.pending@[i2],
            ) by {
                let ol = old(self).pending@.len() as int;
                let oq = old(self).queried@.len() as int;
                if i2 < ol {
                    let w = choose|w: int|
                        0 <= w < oq && old(self).queried@[w] == old(self).pending@[i2];
                    assert(self.queried@[w] == self.pending@[i2]);
                } else {
                    assert(self.pending@[i2] == ids[i2 - ol]);
                    assert(self.queried@[oq + (i2 - ol)] == ids[i2 - ol]);
                }
            }
        }
        reqs
    }

    /// Completes one finished round: a round that brought a candidate closer
    /// than the best already known resets the stale count; otherwise one
    /// more stale round is recorded, and reaching `NO_IMPROVEMENT_LIMIT`
    /// terminates the lookup.
    fn finish_round(&mut self)
        requires
            old(self).wf(),
            !old(self).done,
        ensures
            final(self).wf(),
            final(self).kind == old(self).kind,
            final(self).target == old(self).target,
            final(self).deadline == old(self).deadline,
            final(self).found == old(self).found,
            final(self).candidates@ == old(self).candidates@,
            final(self).queried@ == old(self).queried@,
            final(self).pending@ == old(self).pending@,
            ({
                let improved = old(self).candidates@.len() > 0 && spec_distance(
                    old(self).candidates@[0].id,
                    old(self).target,
                ) < old(self).best_dist;
                &&& improved ==> final(self).best_dist == spec_distance(
                    old(self).candidates@[0].id,
                    old(self).target,
                ) && final(self).stale_rounds == 0 && !final(self).done
                &&& !improved ==> final(self).best_dist == old(self).best_dist
                    && final(self).stale_rounds == old(self).stale_rounds + 1
                    && final(self).done == (old(self).stale_rounds + 1 >= NO_IMPROVEMENT_LIMIT)
            }),
    {
        if self.candidates.len() > 0 {
            let d = distance(self.candidates[0].id, self.target);
            if d < self.best_dist {
                self.best_dist = d;
                self.stale_rounds = 0;
                return ;
            }
        }
        self.stale_rounds = self.stale_rounds + 1;
        if self.stale_rounds >= NO_IMPROVEMENT_LIMIT {
            self.done = true;
        }
    }

    /// Handles one peer's answer: the peer is no longer awaited, the
    /// contacts it returned join the candidate set, a FIND_VALUE that got
    /// the value short-circuits and terminates at once, and when the round's
    /// last answer is in the round is evaluated for progress.
    pub fn on_response(&mut self, from: u64, closer: Vec<Contact>, value: Option<Record>)
        requires
            old(self).wf(),
        ensures
            final(self).wf(),
            final(self).kind == old(self).kind,
            final(self).target == old(self).target,
            final(self).deadline == old(self).deadline,
            old(self).done ==> *final(self) == *old(self),
            !old(self).done ==> final(self).queried@ == old(self).queried@,
            !old(self).done ==> !id_in(final(self).pending@, from) && forall|x: u64|
                x != from ==> id_in(final(self).pending@, x) == id_in(old(self).pending@, x),
            !old(self).done && (old(self).kind is FindValue) && (value is Some)
                ==> final(self).done && final(self).found == value,
            !old(self).done && !((old(self).kind is FindValue) && (value is Some))
                ==> final(self).found == old(self).found && (final(self).pending@.len() > 0
                ==> !final(self).done),
            !old(self).done && !((old(self).kind is FindValue) && (value is Some))
                && final(self).pending@.len() == 0 ==> (final(self).stale_rounds == 0 || (final(
                self).stale_rounds == old(self).stale_rounds + 1 && (final(self).done == (old(
                self).stale_rounds + 1 >= NO_IMPROVEMENT_LIMIT)))),
            !old(self).done ==> forall|i: int|
                0 <= i < old(self).candidates@.len() ==> bucket_has_id(
                    final(self).candidates@,
                    (#[trigger] old(self).candidates@[i]).id,
                ),
    {
        if self.done {
            return ;
        }
        let _ = take_out_id(&mut self.pending, from);
        proof {
            lemma_pending_subset(self.queried@, old(self).pending@, self.pending@);
        }
        let got_value = match (&self.kind, &value) {
            (LookupKind::FindValue, Option::Some(_)) => true,
            _ => false,
        };
        if got_value {
            self.found = value;
            self.done = true;
            proof {
                assert forall|i: int| 0 <= i < old(self).candidates@.len() implies bucket_has_id(
                    self.candidates@,
                    (#[trigger] old(self).candidates@[i]).id,
                ) by {
                    assert(self.candidates@[i].id == old(self).candidates@[i].id);
                }
            }
            return ;
        }
        let mut i: usize = 0;
        while i < closer.len()
            invariant
                i <= closer@.len(),
                sorted_by_dist(self.target, self.candidates@),
                contact_ids_unique(self.candidates@),
                self.target == old(self).target,
                self.kind == old(self).kind,
                self.deadline == old(self).deadline,
                self.found == old(self).found,
                self.queried@ == old(self).queried@,
                ids_unique(self.pending@),
                forall|q: int|
                    0 <= q < self.pending@.len() ==> id_in(
                        self.queried@,
                        #[trigger] self.pending@[q],
                    ),
                self.stale_rounds == old(self).stale_rounds,
                self.best_dist == old(self).best_dist,
                self.done == false,
                old(self).wf(),
                !old(self).done,
                !id_in(self.pending@, from),
                forall|x: u64|
                    x != from ==> id_in(self.pending@, x) == id_in(old(self).pending@, x),
                forall|q: int|
                    0 <= q < old(self).candidates@.len() ==> bucket_has_id(
                        self.candidates@,
                        (#[trigger] old(self).candidates@[q]).id,
                    ),
            decreases closer@.len() - i,
        {
            let c = closer[i].duplicate();
            merge_candidate(self.target, &mut self.candidates, c);
            i = i + 1;
        }
        if self.pending.len() == 0 {
            proof {
                assert(self.stale_rounds < NO_IMPROVEMENT_LIMIT);
            }
            self.finish_round();
        }
    }

    /// Handles one peer's failure (timeout or refused connection): the peer
    /// is simply no longer awaited; an individual failure never aborts the
    /// query, but the round it belonged to may now be complete.
    pub fn on_failure(&mut self, from: u64)
        requires
            old(self).wf(),
        ensures
            final(self).wf(),
            final(self).kind == old(self).kind,
            final(self).target == old(self).target,
            final(self).deadline == old(self).deadline,
            final(self).candidates@ == old(self).candidates@,
            old(self).done ==> *final(self) == *old(self),
            !old(self).done ==> final(self).queried@ == old(self).queried@ && final(self).found
                == old(self).found,
            !old(self).done ==> !id_in(final(self).pending@, from) && forall|x: u64|
                x != from ==> id_in(final(self).pending@, x) == id_in(old(self).pending@, x),
            !old(self).done && final(self).pending@.len() > 0 ==> !final(self).done,
    {
        if self.done {
            return ;
        }
        let _ = take_out_id(&mut self.pending, from);
        proof {
            lemma_pending_subset(self.queried@, old(self).pending@, self.pending@);
        }
        if self.pending.len() == 0 {
            self.finish_round();
        }
    }

    /// Applies the passage of time: a lookup whose deadline has elapsed
    /// terminates with whatever partial result exists.
    pub fn on_tick(&mut self, now: u64)
        requires
            old(self).wf(),
        ensures
            final(self).wf(),
            now >= old(self).deadline ==> final(self).done,
            now < old(self).deadline ==> *final(self) == *old(self),
            *final(self) == (Lookup { done: final(self).done, ..*old(self) }),
    {
        if now >= self.deadline {
            self.done = true;
        }
    }

    /// The closest-`K` contacts the lookup has converged on, ascending by
    /// distance to the target.
    pub fn final_closest(&self) -> (r: Vec<Contact>)
        ensures
            r@.len() == if self.candidates@.len() < K {
                self.candidates@.len() as int
            } else {
                K as int
            },
            forall|i: int| 0 <= i < r@.len() ==> (#[trigger] r@[i])@ == self.candidates@[i]@,
    {
        let n = if self.candidates.len() < K {
            self.candidates.len()
        } else {
            K
        };
        let mut r: Vec<Contact> = Vec::new();
        let mut i: usize = 0;
        while i < n
            invariant
                i <= n,
                n <= self.candidates@.len(),
                r@.len() == i,
                forall|q: int| 0 <= q < i ==> (#[trigger] r@[q])@ == self.candidates@[q]@,
            decreases n - i,
        {
            r.push(self.candidates[i].duplicate());
            i = i + 1;
        }
        r
    }
}

/// A lookup that has gone `NO_IMPROVEMENT_LIMIT` consecutive rounds without
/// finding a closer candidate has terminated: it cannot run indefinitely.
pub proof fn lemma_no_improvement_terminates(q: &Lookup)
    requires
        q.wf(),
        q.stale_rounds >= NO_IMPROVEMENT_LIMIT,
    ensures
        q.done,
{
}

} // verus!
