//! The local record store: an in-memory mapping from key to record, the
//! node's authoritative local cache. A later `put` for the same key replaces
//! the old record — last write wins; `get` misses are a normal outcome, not
//! an error. Records are never expired.

use vstd::prelude::*;
use crate::bytes::bytes_eq;

verus! {

/// A stored record: an opaque key, the bytes stored under it, the publishing
/// peer if known, and the time it was inserted.
pub struct Record {
    pub key: Vec<u8>,
    pub value: Vec<u8>,
    pub publisher: Option<u64>,
    pub inserted_at: u64,
}

/// The mathematical content of a `Record`.
pub struct RecData {
    pub key: Seq<u8>,
    pub value: Seq<u8>,
    pub publisher: Option<u64>,
    pub inserted_at: u64,
}

impl View for Record {
    type V = RecData;

    open spec fn view(&self) -> RecData {
        RecData {
            key: self.key@,
            value: self.value@,
            publisher: self.publisher,
            inserted_at: self.inserted_at,
        }
    }
}

impl Record {
    /// Copies a record.
    pub fn duplicate(&self) -> (r: Record)
        ensures
            r@ == self@,
    {
        Record {
            key: crate::bytes::copy_bytes(&self.key),
            value: crate::bytes::copy_bytes(&self.value),
            publisher: self.publisher,
            inserted_at: self.inserted_at,
        }
    }
}

/// No two records in the sequence share a key.
pub open spec fn keys_unique(s: Seq<Record>) -> bool {
    forall|i: int, j: int| 0 <= i < j < s.len() ==> s[i].key@ != s[j].key@
}

/// The mapping a sequence of records denotes; later entries shadow earlier
/// ones.
pub open spec fn kv_map(s: Seq<Record>) -> Map<Seq<u8>, RecData>
    decreases s.len(),
{
    if s.len() == 0 {
        Map::empty()
    } else {
        kv_map(s.drop_last()).insert(s.last().key@, s.last()@)
    }
}

proof fn lemma_kv_contains(s: Seq<Record>)
    ensures
        forall|k: Seq<u8>|
            kv_map(s).contains_key(k) <==> exists|i: int| 0 <= i < s.len() && s[i].key@ == k,
    decreases s.len(),
{
    if s.len() > 0 {
        lemma_kv_contains(s.drop_last());
        assert forall|k: Seq<u8>| kv_map(s).contains_key(k) implies exists|i: int|
            0 <= i < s.len() && s[i].key@ == k by {
            if k == s.last().key@ {
                assert(s[s.len() - 1].key@ == k);
            } else {
                assert(kv_map(s.drop_last()).contains_key(k));
                assert(exists|i: int| 0 <= i < s.drop_last().len() && s.drop_last()[i].key@ == k);
                let i = choose|i: int| 0 <= i < s.drop_last().len() && s.drop_last()[i].key@ == k;
                assert(s.drop_last()[i] == s[i]);
                assert(s[i].key@ == k);
            }
        }
        assert forall|k: Seq<u8>| (exists|i: int| 0 <= i < s.len() && s[i].key@ == k) implies
            kv_map(s).contains_key(k) by {
            let i = choose|i: int| 0 <= i < s.len() && s[i].key@ == k;
            if i < s.len() - 1 {
                assert(s.drop_last()[i].key@ == k);
                assert(exists|j: int|
                    0 <= j < s.drop_last().len() && s.drop_last()[j].key@ == k);
                assert(kv_map(s.drop_last()).contains_key(k));
            } else {
                assert(k == s.last().key@);
            }
        }
    }
}

proof fn lemma_kv_index(s: Seq<Record>, i: int)
    requires
        keys_unique(s),
        0 <= i < s.len(),
    ensures
        kv_map(s).contains_key(s[i].key@),
        kv_map(s)[s[i].key@] == s[i]@,
    decreases s.len(),
{
    if i < s.len() - 1 {
        lemma_kv_index(s.drop_last(), i);
        assert(s.drop_last()[i] == s[i]);
        assert(s[i].key@ != s.last().key@);
    }
}

proof fn lemma_kv_update(s: Seq<Record>, i: int, r: Record)
    requires
        keys_unique(s),
        0 <= i < s.len(),
        r.key@ == s[i].key@,
    ensures
        kv_map(s.update(i, r)) =~= kv_map(s).insert(r.key@, r@),
    decreases s.len(),
{
    let t = s.update(i, r);
    if i == s.len() - 1 {
        assert(t.drop_last() =~= s.drop_last());
        assert(t.last() == r);
        assert(kv_map(s.drop_last()).insert(s.last().key@, s.last()@).insert(r.key@, r@)
            =~= kv_map(s.drop_last()).insert(r.key@, r@));
    } else {
        lemma_kv_update(s.drop_last(), i, r);
        assert(t.drop_last() =~= s.drop_last().update(i, r));
        assert(t.last() == s.last());
        assert(r.key@ != s.last().key@);
        assert(kv_map(s.drop_last()).insert(r.key@, r@).insert(s.last().key@, s.last()@)
            =~= kv_map(s.drop_last()).insert(s.last().key@, s.last()@).insert(r.key@, r@));
    }
}

/// The in-memory record store.
pub struct RecordStore {
    records: Vec<Record>,
}

impl View for RecordStore {
    type V = Map<Seq<u8>, RecData>;

    closed spec fn view(&self) -> Map<Seq<u8>, RecData> {
        kv_map(self.records@)
    }
}

impl RecordStore {
    /// Internal invariant: no key is stored twice.
    pub closed spec fn wf(&self) -> bool {
        keys_unique(self.records@)
    }

    /// Creates an empty store.
    pub fn new() -> (s: RecordStore)
        ensures
            s.wf(),
            s@ == Map::<Seq<u8>, RecData>::empty(),
    {
        RecordStore { records: Vec::new() }
    }

    /// Inserts or overwrites the record stored under `rec.key`; always
    /// succeeds, and the new record replaces any older one for the same key.
    pub fn put(&mut self, rec: Record)
        requires
            old(self).wf(),
        ensures
            final(self).wf(),
            final(self)@ == old(self)@.insert(rec.key@, rec@),
    {
        let ghost s0 = old(self).records@;
        let mut i: usize = 0;
        while i < self.records.len()
            invariant
                i <= self.records@.len(),
                self.records@ == s0,
                s0 == old(self).records@,
                keys_unique(s0),
                forall|j: int| 0 <= j < i ==> s0[j].key@ != rec.key@,
            decreases self.records@.len() - i,
        {
            if bytes_eq(&self.records[i].key, &rec.key) {
                proof {
                    lemma_kv_update(s0, i as int, rec);
                }
                self.records.set(i, rec);
                proof {
                    assert forall|a: int, b: int|
                        0 <= a < b < self.records@.len() implies
                        self.records@[a].key@ != self.records@[b].key@ by {
                        assert(s0[a].key@ != s0[b].key@);
                    }
                }
                return ;
            }
            i = i + 1;
        }
        self.records.push(rec);
        proof {
            assert(self.records@.drop_last() =~= s0);
            assert forall|a: int, b: int|
                0 <= a < b < self.records@.len() implies
                self.records@[a].key@ != self.records@[b].key@ by {
                if b < self.records@.len() - 1 {
                    assert(s0[a].key@ != s0[b].key@);
                }
            }
        }
    }

    /// Returns the record stored under `key`, or nothing on a miss; a miss
    /// is a normal outcome, not an error.
    pub fn get(&self, key: &Vec<u8>) -> (r: Option<&Record>)
        requires
            self.wf(),
        ensures
            match r {
                Some(rec) => self@.contains_key(key@) && rec@ == self@[key@] && rec@.key == key@,
                None => !self@.contains_key(key@),
            },
    {
        proof {
            lemma_kv_contains(self.records@);
        }
        let mut i: usize = 0;
        while i < self.records.len()
            invariant
                i <= self.records@.len(),
                self.wf(),
                forall|j: int| 0 <= j < i ==> self.records@[j].key@ != key@,
            decreases self.records@.len() - i,
        {
            if bytes_eq(&self.records[i].key, key) {
                proof {
                    lemma_kv_index(self.records@, i as int);
                }
                return Some(&self.records[i]);
            }
            i = i + 1;
        }
        proof {
            lemma_kv_contains(self.records@);
        }
        None
    }
}

/// A `put` followed immediately by a `get` for the same key returns exactly
/// the record just put.
pub proof fn lemma_put_then_get(m: Map<Seq<u8>, RecData>, r: RecData)
    ensures
        m.insert(r.key, r).contains_key(r.key),
        m.insert(r.key, r)[r.key] == r,
{
}

/// Last write wins: two `put`s for the same key leave the store exactly as a
/// single `put` of the second record would, with no duplicate entry.
pub proof fn lemma_last_write_wins(m: Map<Seq<u8>, RecData>, r1: RecData, r2: RecData)
    requires
        r1.key == r2.key,
    ensures
        m.insert(r1.key, r1).insert(r2.key, r2) =~= m.insert(r2.key, r2),
{
}

} // verus!
