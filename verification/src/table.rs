//! The routing table: known peers organized into buckets by XOR distance
//! from the local identifier. Every known contact sits in exactly the bucket
//! its distance selects, a bucket never exceeds `K` entries, and the table
//! answers `closest` queries — the foundational primitive of every lookup.

use vstd::prelude::*;
use vstd::pervasive::VecAdditionalExecFns;
use crate::dist::{spec_distance, spec_bucket_index, distance, bucket_index, lemma_distance_zero,
    lemma_bucket_index_in_range, ID_BITS};
use crate::bytes::copy_bytes;
use crate::K;

verus! {

/// A known peer: its identifier and a reachable network address.
pub struct Contact {
    pub id: u64,
    pub addr: Vec<u8>,
}

/// The mathematical content of a `Contact`.
pub struct ContactData {
    pub id: u64,
    pub addr: Seq<u8>,
}

impl View for Contact {
    type V = ContactData;

    open spec fn view(&self) -> ContactData {
        ContactData { id: self.id, addr: self.addr@ }
    }
}

impl Contact {
    /// Copies a contact.
    pub fn duplicate(&self) -> (r: Contact)
        ensures
            r@ == self@,
    {
        Contact { id: self.id, addr: copy_bytes(&self.addr) }
    }
}

/// One bucket: contacts within one distance range from the local node,
/// ordered least-recently-seen first.
pub struct Bucket {
    pub contacts: Vec<Contact>,
}

/// The routing table: one bucket per identifier bit.
pub struct RoutingTable {
    pub local_id: u64,
    pub buckets: Vec<Bucket>,
}

/// The bucket a peer with identifier `id` belongs in, relative to
/// `local_id`.
pub open spec fn spec_bucket_of(local_id: u64, id: u64) -> int {
    spec_bucket_index(spec_distance(local_id, id)) as int
}

/// Whether some contact in the sequence has identifier `id`.
pub open spec fn bucket_has_id(s: Seq<Contact>, id: u64) -> bool {
    exists|j: int| 0 <= j < s.len() && s[j].id == id
}

/// Whether some contact in the sequence has exactly the given content.
pub open spec fn seq_has_view(s: Seq<Contact>, cd: ContactData) -> bool {
    exists|j: int| 0 <= j < s.len() && s[j]@ == cd
}

/// The sequence is sorted by ascending XOR distance to `target`.
pub open spec fn sorted_by_dist(target: u64, s: Seq<Contact>) -> bool {
    forall|i: int, j: int|
        0 <= i < j < s.len() ==> spec_distance(s[i].id, target) <= spec_distance(s[j].id, target)
}

/// What a `record_seen` call did.
pub enum SeenResult {
    /// The contact is the local node itself; nothing to record.
    Ignored,
    /// The peer was already known; its entry moved to most-recently-seen and
    /// took the new address.
    Refreshed,
    /// The peer was new and its bucket had room; it was appended.
    Added,
    /// The peer is new but its bucket is full: the table is unchanged and
    /// the returned contact is the bucket's least-recently-seen entry, which
    /// the caller should ping before deciding with `ping_outcome`.
    BucketFull(Contact),
}

impl RoutingTable {
    /// Internal invariant: one bucket per identifier bit; no bucket exceeds
    /// `K` contacts; every contact sits in exactly the bucket its distance
    /// selects and is not the local node; no identifier occurs twice in a
    /// bucket.
    pub open spec fn wf(&self) -> bool {
        &&& self.buckets@.len() == ID_BITS
        &&& forall|b: int|
            0 <= b < self.buckets@.len() ==> (#[trigger] self.buckets@[b]).contacts@.len() <= K
        &&& forall|b: int, j: int|
            0 <= b < self.buckets@.len() && 0 <= j < self.buckets@[b].contacts@.len() ==> ((
            #[trigger] self.buckets@[b].contacts@[j]).id != self.local_id && spec_bucket_of(
                self.local_id,
                self.buckets@[b].contacts@[j].id,
            ) == b)
        &&& forall|b: int, i: int, j: int|
            0 <= b < self.buckets@.len() && 0 <= i < j < self.buckets@[b].contacts@.len()
                ==> (#[trigger] self.buckets@[b].contacts@[i]).id != (
            #[trigger] self.buckets@[b].contacts@[j]).id
    }

    /// Whether the table knows a contact with exactly this content.
    pub open spec fn in_table(&self, cd: ContactData) -> bool {
        exists|b: int, j: int|
            0 <= b < self.buckets@.len() && 0 <= j < self.buckets@[b].contacts@.len()
                && self.buckets@[b].contacts@[j]@ == cd
    }

    /// Creates an empty routing table for the given local identifier.
    pub fn new(local_id: u64) -> (t: RoutingTable)
        ensures
            t.wf(),
            t.local_id == local_id,
            forall|cd: ContactData| !t.in_table(cd),
    {
        let mut buckets: Vec<Bucket> = Vec::new();
        let mut b: usize = 0;
        while b < ID_BITS
            invariant
                b <= ID_BITS,
                buckets@.len() == b,
                forall|i: int|
                    0 <= i < b ==> (#[trigger] buckets@[i]).contacts@.len() == 0,
            decreases ID_BITS - b,
        {
            buckets.push(Bucket { contacts: Vec::new() });
            b = b + 1;
        }
        RoutingTable { local_id, buckets }
    }

    /// A bucket's contact count never exceeds the replication parameter `K`.
    pub proof fn lemma_bucket_capacity(&self)
        requires
            self.wf(),
        ensures
            forall|b: int|
                0 <= b < self.buckets@.len() ==> (#[trigger] self.buckets@[b]).contacts@.len()
                    <= K,
    {
    }

    /// Inserts or refreshes a contact. A known peer is refreshed; a new peer
    /// joins its bucket if there is room; if the bucket is full the table is
    /// left unchanged and the least-recently-seen entry is handed back for a
    /// liveness check.
    pub fn record_seen(&mut self, c: Contact) -> (r: SeenResult)
        requires
            old(self).wf(),
        ensures
            final(self).wf(),
            final(self).local_id == old(self).local_id,
            final(self).buckets@.len() == old(self).buckets@.len(),
            c.id == old(self).local_id ==> *final(self) == *old(self) && (r is Ignored),
            c.id != old(self).local_id ==> {
                let b = spec_bucket_of(old(self).local_id, c.id);
                let obk = old(self).buckets@[b].contacts@;
                let nbk = final(self).buckets@[b].contacts@;
                &&& forall|b2: int|
                    0 <= b2 < old(self).buckets@.len() && b2 != b ==> final(self).buckets@[b2]
                        == old(self).buckets@[b2]
                &&& match r {
                    SeenResult::Ignored => false,
                    SeenResult::Refreshed => bucket_has_id(obk, c.id) && (exists|j: int|
                        0 <= j < obk.len() && obk[j].id == c.id && nbk == obk.remove(j).push(c)),
                    SeenResult::Added => !bucket_has_id(obk, c.id) && obk.len() < K && nbk
                        == obk.push(c),
                    SeenResult::BucketFull(lru) => !bucket_has_id(obk, c.id) && obk.len() == K
                        && *final(self) == *old(self) && lru@ == obk[0]@,
                }
            },
    {
        if c.id == self.local_id {
            return SeenResult::Ignored;
        }
        proof {
            lemma_distance_zero(self.local_id, c.id);
            lemma_bucket_index_in_range(spec_distance(self.local_id, c.id));
        }
        let d = distance(self.local_id, c.id);
        let b = bucket_index(d);
        let ghost obk = self.buckets@[b as int].contacts@;

        // Scan the bucket for an existing entry for this peer.
        let blen = self.buckets[b].contacts.len();
        let mut j: usize = 0;
        let mut found = false;
        while j < blen && !found
            invariant
                j <= blen,
                b < self.buckets@.len(),
                blen == self.buckets@[b as int].contacts@.len(),
                obk == self.buckets@[b as int].contacts@,
                found ==> j < blen && obk[j as int].id == c.id,
                !found ==> forall|q: int| 0 <= q < j ==> obk[q].id != c.id,
            decreases blen - j + (if found { 0int } else { 1int }),
        {
            if self.buckets[b].contacts[j].id == c.id {
                found = true;
            } else {
                j = j + 1;
            }
        }

        if found {
            // Refresh: move the entry to the most-recently-seen end with the
            // new address.
            let mut bkt = Bucket { contacts: Vec::new() };
            self.buckets.set_and_swap(b, &mut bkt);
            let _evicted = bkt.contacts.remove(j);
            bkt.contacts.push(c);
            self.buckets.set_and_swap(b, &mut bkt);
            proof {
                let nbk = self.buckets@[b as int].contacts@;
                assert(nbk == obk.remove(j as int).push(c));
                assert(self.buckets@ =~= old(self).buckets@.update(b as int,
                    Bucket { contacts: self.buckets@[b as int].contacts }));
                lemma_refresh_wf(*old(self), *self, b as int, j as int, c);
            }
            SeenResult::Refreshed
        } else if blen < K {
            let mut bkt = Bucket { contacts: Vec::new() };
            self.buckets.set_and_swap(b, &mut bkt);
            bkt.contacts.push(c);
            self.buckets.set_and_swap(b, &mut bkt);
            proof {
                let nbk = self.buckets@[b as int].contacts@;
                assert(nbk == obk.push(c));
                lemma_append_wf(*old(self), *self, b as int, c);
            }
            SeenResult::Added
        } else {
            let lru = self.buckets[b].contacts[0].duplicate();
            SeenResult::BucketFull(lru)
        }
    }

    /// Settles a full-bucket conflict after the caller pinged the bucket's
    /// least-recently-seen entry. If the old entry answered, the bucket is
    /// full and healthy: the table is left exactly unchanged and the new
    /// contact is discarded. If it did not, it is evicted and the new
    /// contact is appended.
    pub fn ping_outcome(&mut self, candidate: Contact, alive: bool)
        requires
            old(self).wf(),
        ensures
            final(self).wf(),
            final(self).local_id == old(self).local_id,
            final(self).buckets@.len() == old(self).buckets@.len(),
            alive ==> *final(self) == *old(self),
            !alive ==> {
                let b = spec_bucket_of(old(self).local_id, candidate.id);
                let obk = old(self).buckets@[b].contacts@;
                let nbk = final(self).buckets@[b].contacts@;
                &&& forall|b2: int|
                    0 <= b2 < old(self).buckets@.len() && b2 != b ==> final(self).buckets@[b2]
                        == old(self).buckets@[b2]
                &&& (candidate.id != old(self).local_id && obk.len() == K && !bucket_has_id(obk,
                    candidate.id)) ==> nbk == obk.drop_first().push(candidate)
                &&& (candidate.id == old(self).local_id || obk.len() != K || bucket_has_id(obk,
                    candidate.id)) ==> *final(self) == *old(self)
            },
    {
        if alive || candidate.id == self.local_id {
            return ;
        }
        proof {
            lemma_distance_zero(self.local_id, candidate.id);
            lemma_bucket_index_in_range(spec_distance(self.local_id, candidate.id));
        }
        let d = distance(self.local_id, candidate.id);
        let b = bucket_index(d);
        let ghost obk = self.buckets@[b as int].contacts@;

        let blen = self.buckets[b].contacts.len();
        let mut j: usize = 0;
        let mut present = false;
        while j < blen && !present
            invariant
                j <= blen,
                b < self.buckets@.len(),
                blen == self.buckets@[b as int].contacts@.len(),
                obk == self.buckets@[b as int].contacts@,
                present ==> bucket_has_id(obk, candidate.id),
                !present ==> forall|q: int| 0 <= q < j ==> obk[q].id != candidate.id,
            decreases blen - j + (if present { 0int } else { 1int }),
        {
            if self.buckets[b].contacts[j].id == candidate.id {
                present = true;
            } else {
                j = j + 1;
            }
        }
        if present || blen != K {
            return ;
        }

        let mut bkt = Bucket { contacts: Vec::new() };
        self.buckets.set_and_swap(b, &mut bkt);
        let _evicted = bkt.contacts.remove(0);
        bkt.contacts.push(candidate);
        self.buckets.set_and_swap(b, &mut bkt);
        proof {
            let nbk = self.buckets@[b as int].contacts@;
            assert(nbk == obk.remove(0).push(candidate));
            assert(obk.remove(0) =~= obk.drop_first());
            lemma_refresh_like_wf(*old(self), *self, b as int, candidate);
        }
    }
}

impl RoutingTable {
    /// Every contact known anywhere in the table, in bucket order.
    fn collect_contacts(&self) -> (all: Vec<Contact>)
        requires
            self.wf(),
        ensures
            forall|i: int| 0 <= i < all@.len() ==> self.in_table(#[trigger] all@[i]@),
            forall|cd: ContactData| #[trigger] self.in_table(cd) ==> seq_has_view(all@, cd),
    {
        let mut all: Vec<Contact> = Vec::new();
        let mut b: usize = 0;
        while b < self.buckets.len()
            invariant
                self.wf(),
                b <= self.buckets@.len(),
                forall|i: int| 0 <= i < all@.len() ==> self.in_table(#[trigger] all@[i]@),
                forall|b2: int, j2: int|
                    0 <= b2 < b && 0 <= j2 < self.buckets@[b2].contacts@.len() ==> seq_has_view(
                        all@,
                        (#[trigger] self.buckets@[b2].contacts@[j2])@,
                    ),
            decreases self.buckets@.len() - b,
        {
            let blen = self.buckets[b].contacts.len();
            let mut j: usize = 0;
            while j < blen
                invariant
                    self.wf(),
                    b < self.buckets@.len(),
                    j <= blen,
                    blen == self.buckets@[b as int].contacts@.len(),
                    forall|i: int| 0 <= i < all@.len() ==> self.in_table(#[trigger] all@[i]@),
                    forall|b2: int, j2: int|
                        0 <= b2 < b && 0 <= j2 < self.buckets@[b2].contacts@.len() ==> seq_has_view(
                            all@,
                            (#[trigger] self.buckets@[b2].contacts@[j2])@,
                        ),
                    forall|j2: int|
                        0 <= j2 < j ==> seq_has_view(
                            all@,
                            (#[trigger] self.buckets@[b as int].contacts@[j2])@,
                        ),
                decreases blen - j,
            {
                let c = self.buckets[b].contacts[j].duplicate();
                let ghost prev = all@;
                all.push(c);
                proof {
                    assert(all@[all@.len() - 1]@ == self.buckets@[b as int].contacts@[j as int]@);
                    assert forall|i: int| 0 <= i < all@.len() implies self.in_table(
                        #[trigger] all@[i]@,
                    ) by {
                        if i < prev.len() {
                            assert(all@[i] == prev[i]);
                        }
                    }
                    assert forall|b2: int, j2: int|
                        0 <= b2 < b && 0 <= j2 < self.buckets@[b2].contacts@.len() implies
                        seq_has_view(all@, (#[trigger] self.buckets@[b2].contacts@[j2])@) by {
                        let q = choose|q: int|
                            0 <= q < prev.len() && prev[q]@ == self.buckets@[b2].contacts@[j2]@;
                        assert(all@[q]@ == self.buckets@[b2].contacts@[j2]@);
                    }
                    assert forall|j2: int| 0 <= j2 <= j implies seq_has_view(
                        all@,
                        (#[trigger] self.buckets@[b as int].contacts@[j2])@,
                    ) by {
                        if j2 < j {
                            let q = choose|q: int|
                                0 <= q < prev.len() && prev[q]@ == self.buckets@[
                                    b as int].contacts@[j2]@;
                            assert(all@[q]@ == self.buckets@[b as int].contacts@[j2]@);
                        } else {
                            assert(all@[all@.len() - 1]@ == self.buckets@[b as int].contacts@[j2]@);
                        }
                    }
                }
                j = j + 1;
            }
            b = b + 1;
        }
        proof {
            assert forall|cd: ContactData| #[trigger] self.in_table(cd) implies seq_has_view(
                all@,
                cd,
            ) by {
                let (b2, j2) = choose|b2: int, j2: int|
                    0 <= b2 < self.buckets@.len() && 0 <= j2 < self.buckets@[b2].contacts@.len()
                        && self.buckets@[b2].contacts@[j2]@ == cd;
                assert(seq_has_view(all@, self.buckets@[b2].contacts@[j2]@));
            }
        }
        all
    }

    /// Returns the `count` contacts with smallest XOR distance to `target`
    /// known anywhere in the table, sorted ascending by distance. The result
    /// never exceeds `count` entries; every entry is a known contact; and a
    /// known contact is left out only when the result already holds `count`
    /// entries none of which is farther from the target. Ties are broken by
    /// insertion order, which is stable within one process run but otherwise
    /// unspecified.
    pub fn closest(&self, target: u64, count: usize) -> (r: Vec<Contact>)
        requires
            self.wf(),
        ensures
            r@.len() <= count,
            sorted_by_dist(target, r@),
            forall|i: int| 0 <= i < r@.len() ==> self.in_table(#[trigger] r@[i]@),
            forall|cd: ContactData|
                #[trigger] self.in_table(cd) && !seq_has_view(r@, cd) ==> r@.len() == count && (
                count >= 1 ==> spec_distance(cd.id, target) >= spec_distance(
                    r@[count - 1].id,
                    target,
                )),
    {
        let all = self.collect_contacts();
        let mut out = sort_by_distance(target, all);
        let ghost sorted = out@;
        if out.len() > count {
            out.truncate(count);
        }
        proof {
            assert(out@ =~= sorted.take(if sorted.len() <= count as int {
                sorted.len() as int
            } else {
                count as int
            }));
            assert forall|cd: ContactData|
                #[trigger] self.in_table(cd) && !seq_has_view(out@, cd) implies out@.len()
                == count && (count >= 1 ==> spec_distance(cd.id, target) >= spec_distance(
                out@[count as int - 1].id,
                target,
            )) by {
                let q = choose|q: int| 0 <= q < sorted.len() && sorted[q]@ == cd;
                if q < out@.len() {
                    assert(out@[q]@ == cd);
                    assert(false);
                }
                assert(sorted.len() > out@.len());
                assert(out@.len() == count);
                if count >= 1 {
                    assert(spec_distance(sorted[count - 1].id, target) <= spec_distance(
                        sorted[q].id,
                        target,
                    ));
                    assert(sorted[q].id == cd.id);
                }
            }
        }
        out
    }
}

/// Sorts contacts by ascending XOR distance to `target` with a stable
/// insertion sort; the output holds exactly the contents of the input.
fn sort_by_distance(target: u64, all: Vec<Contact>) -> (out: Vec<Contact>)
    ensures
        sorted_by_dist(target, out@),
        forall|i: int| 0 <= i < out@.len() ==> seq_has_view(all@, #[trigger] out@[i]@),
        forall|i: int| 0 <= i < all@.len() ==> seq_has_view(out@, #[trigger] all@[i]@),
        out@.len() >= all@.len(),
{
    let mut out: Vec<Contact> = Vec::new();
    let mut i: usize = 0;
    while i < all.len()
        invariant
            i <= all@.len(),
            out@.len() == i,
            sorted_by_dist(target, out@),
            forall|q: int| 0 <= q < out@.len() ==> seq_has_view(all@, #[trigger] out@[q]@),
            forall|q: int| 0 <= q < i ==> seq_has_view(out@, #[trigger] all@[q]@),
        decreases all@.len() - i,
    {
        let x = all[i].duplicate();
        let dx = distance(x.id, target);
        let mut p: usize = 0;
        while p < out.len() && distance(out[p].id, target) <= dx
            invariant
                p <= out@.len(),
                dx == spec_distance(x.id, target),
                sorted_by_dist(target, out@),
                forall|q: int|
                    0 <= q < p ==> spec_distance((#[trigger] out@[q]).id, target) <= dx,
            decreases out@.len() - p,
        {
            p = p + 1;
        }
        let ghost prev = out@;
        proof {
            assert forall|q: int| p <= q < prev.len() implies spec_distance(
                (#[trigger] prev[q]).id,
                target,
            ) > dx by {
                assert(spec_distance(prev[p as int].id, target) <= spec_distance(
                    prev[q].id,
                    target,
                ));
            }
        }
        out.insert(p, x);
        proof {
            let cur = out@;
            assert(cur == prev.insert(p as int, x));
            assert forall|a: int, b2: int|
                0 <= a < b2 < cur.len() implies spec_distance(cur[a].id, target) <= spec_distance(
                cur[b2].id,
                target,
            ) by {
                let pa = if a < p { a } else { a - 1 };
                let pb = if b2 < p { b2 } else { b2 - 1 };
                if a != p {
                    assert(cur[a] == prev[pa]);
                }
                if b2 != p {
                    assert(cur[b2] == prev[pb]);
                }
            }
            assert forall|q: int| 0 <= q < cur.len() implies seq_has_view(
                all@,
                #[trigger] cur[q]@,
            ) by {
                if q < p {
                    assert(cur[q] == prev[q]);
                } else if q == p {
                    assert(cur[q]@ == all@[i as int]@);
                } else {
                    assert(cur[q] == prev[q - 1]);
                }
            }
            assert forall|q: int| 0 <= q <= i implies seq_has_view(out@, #[trigger] all@[q]@) by {
                if q < i {
                    let w = choose|w: int| 0 <= w < prev.len() && prev[w]@ == all@[q]@;
                    if w < p {
                        assert(cur[w]@ == all@[q]@);
                    } else {
                        assert(cur[w + 1]@ == all@[q]@);
                    }
                } else {
                    assert(cur[p as int]@ == all@[q]@);
                }
            }
        }
        i = i + 1;
    }
    out
}

/// After a refresh — removing the entry at `j` (the one with `c.id`) and
/// appending `c` — the table invariant still holds.
proof fn lemma_refresh_wf(t0: RoutingTable, t1: RoutingTable, b: int, j: int, c: Contact)
    requires
        t0.wf(),
        t1.local_id == t0.local_id,
        t1.buckets@.len() == t0.buckets@.len(),
        0 <= b < t0.buckets@.len(),
        0 <= j < t0.buckets@[b].contacts@.len(),
        t0.buckets@[b].contacts@[j].id == c.id,
        c.id != t0.local_id,
        spec_bucket_of(t0.local_id, c.id) == b,
        t1.buckets@[b].contacts@ == t0.buckets@[b].contacts@.remove(j).push(c),
        forall|b2: int|
            0 <= b2 < t0.buckets@.len() && b2 != b ==> t1.buckets@[b2] == t0.buckets@[b2],
    ensures
        t1.wf(),
{
    let obk = t0.buckets@[b].contacts@;
    let nbk = t1.buckets@[b].contacts@;
    assert(nbk.len() == obk.len());
    assert forall|q: int| 0 <= q < nbk.len() - 1 implies nbk[q] == obk[if q < j {
        q
    } else {
        q + 1
    }] by {
        assert(nbk[q] == obk.remove(j)[q]);
    }
    assert forall|q: int, q2: int| 0 <= q < q2 < nbk.len() implies nbk[q].id != nbk[q2].id by {
        if q2 == nbk.len() - 1 {
            let oq = if q < j { q } else { q + 1 };
            assert(nbk[q] == obk[oq]);
            if oq != j {
                assert(obk[oq].id != obk[j].id);
            }
        }
    }
}

/// The same, for the eviction path: the head is removed and the candidate
/// appended.
proof fn lemma_refresh_like_wf(t0: RoutingTable, t1: RoutingTable, b: int, c: Contact)
    requires
        t0.wf(),
        t1.local_id == t0.local_id,
        t1.buckets@.len() == t0.buckets@.len(),
        0 <= b < t0.buckets@.len(),
        t0.buckets@[b].contacts@.len() >= 1,
        !bucket_has_id(t0.buckets@[b].contacts@, c.id),
        c.id != t0.local_id,
        spec_bucket_of(t0.local_id, c.id) == b,
        t1.buckets@[b].contacts@ == t0.buckets@[b].contacts@.remove(0).push(c),
        forall|b2: int|
            0 <= b2 < t0.buckets@.len() && b2 != b ==> t1.buckets@[b2] == t0.buckets@[b2],
    ensures
        t1.wf(),
{
    let obk = t0.buckets@[b].contacts@;
    let nbk = t1.buckets@[b].contacts@;
    assert(nbk.len() == obk.len());
    assert forall|q: int| 0 <= q < nbk.len() - 1 implies nbk[q] == obk[q + 1] by {
        assert(nbk[q] == obk.remove(0)[q]);
    }
    assert forall|q: int, q2: int| 0 <= q < q2 < nbk.len() implies nbk[q].id != nbk[q2].id by {
        if q2 == nbk.len() - 1 {
            assert(nbk[q] == obk[q + 1]);
            assert(obk[q + 1].id != c.id);
        }
    }
}

/// After appending a new contact to a bucket with room, the table invariant
/// still holds.
proof fn lemma_append_wf(t0: RoutingTable, t1: RoutingTable, b: int, c: Contact)
    requires
        t0.wf(),
        t1.local_id == t0.local_id,
        t1.buckets@.len() == t0.buckets@.len(),
        0 <= b < t0.buckets@.len(),
        t0.buckets@[b].contacts@.len() < K,
        !bucket_has_id(t0.buckets@[b].contacts@, c.id),
        c.id != t0.local_id,
        spec_bucket_of(t0.local_id, c.id) == b,
        t1.buckets@[b].contacts@ == t0.buckets@[b].contacts@.push(c),
        forall|b2: int|
            0 <= b2 < t0.buckets@.len() && b2 != b ==> t1.buckets@[b2] == t0.buckets@[b2],
    ensures
        t1.wf(),
{
    let obk = t0.buckets@[b].contacts@;
    let nbk = t1.buckets@[b].contacts@;
    assert forall|q: int, q2: int| 0 <= q < q2 < nbk.len() implies nbk[q].id != nbk[q2].id by {
        if q2 == nbk.len() - 1 {
            assert(nbk[q] == obk[q]);
            assert(obk[q].id != c.id);
        }
    }
}

} // verus!
