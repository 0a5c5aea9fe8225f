//! The replication protocol: a Store query first runs a FIND_NODE lookup for
//! the record's key to discover the closest-`K` live peers, then issues
//! STORE requests to each of them concurrently. Success is quorum-based: the
//! query completes successfully as soon as the requested number of
//! acknowledgments has arrived, and reports partial failure — not a hard
//! error — if the deadline elapses with fewer.

use vstd::prelude::*;
use crate::table::Contact;
use crate::store::Record;
use crate::query::{Lookup, LookupKind, id_in, ids_unique, contact_ids_unique};
use crate::{K, QUERY_TIMEOUT_MS};

verus! {

/// Where a Store query stands.
pub enum StorePhase {
    /// Still discovering the closest peers to the key.
    Finding,
    /// STORE requests are out; acknowledgments are being counted.
    Storing,
    /// Finalized, successfully or not.
    Done,
}

/// The state of one in-flight Store (replication) query.
pub struct StoreQuery {
    /// The FIND_NODE lookup that discovers where to replicate.
    pub lookup: Lookup,
    /// The record being replicated.
    pub record: Record,
    /// Acknowledgments required for success; at least one, at most `K`.
    pub quorum: usize,
    /// Peers whose STORE acknowledgment is still awaited.
    pub pending_acks: Vec<u64>,
    /// Acknowledgments received so far.
    pub acks: usize,
    /// Where the query stands.
    pub phase: StorePhase,
    /// Whether the query completed with at least `quorum` acknowledgments.
    pub succeeded: bool,
}

impl StoreQuery {
    /// Internal invariant of a Store query.
    pub open spec fn wf(&self) -> bool {
        &&& self.lookup.wf()
        &&& self.lookup.kind is FindNode
        &&& 1 <= self.quorum
        &&& self.acks + self.pending_acks@.len() <= K
        &&& ids_unique(self.pending_acks@)
        &&& (self.phase is Finding ==> self.acks == 0 && self.pending_acks@.len() == 0)
    }

    /// Starts a Store query: the discovery lookup is seeded from the routing
    /// table and no acknowledgment is counted yet.
    pub fn new(record: Record, key_id: u64, quorum: usize, seed: Vec<Contact>, now: u64) -> (q:
        StoreQuery)
        requires
            1 <= quorum <= K,
            now <= u64::MAX - QUERY_TIMEOUT_MS,
        ensures
            q.wf(),
            q.phase is Finding,
            q.record == record,
            q.quorum == quorum,
            !q.lookup.done,
            q.lookup.target == key_id,
            q.acks == 0,
            q.lookup.pending@.len() == 0,
            seed@.len() == 0 ==> q.lookup.candidates@.len() == 0,
    {
        StoreQuery {
            lookup: Lookup::new(LookupKind::FindNode, key_id, seed, now),
            record,
            quorum,
            pending_acks: Vec::new(),
            acks: 0,
            phase: StorePhase::Finding,
            succeeded: false,
        }
    }

    /// When the discovery lookup has terminated, moves to the storing phase:
    /// the closest-`K` peers it converged on become the replication targets
    /// and are handed back for the caller to send STORE requests to. A
    /// lookup that found no peer at all finalizes at once, under quorum.
    pub fn advance_if_found(&mut self) -> (targets: Vec<Contact>)
        requires
            old(self).wf(),
        ensures
            final(self).wf(),
            final(self).record == old(self).record,
            final(self).quorum == old(self).quorum,
            final(self).lookup == old(self).lookup,
            !((old(self).phase is Finding) && old(self).lookup.done)
                ==> *final(self) == *old(self) && targets@.len() == 0,
            (old(self).phase is Finding) && old(self).lookup.done ==> {
                &&& targets@.len() <= K
                &&& targets@.len() == (if old(self).lookup.candidates@.len() < K {
                    old(self).lookup.candidates@.len() as int
                } else {
                    K as int
                })
                &&& targets@.len() == 0 ==> (final(self).phase is Done) && !final(self).succeeded
                    && final(self).acks == old(self).acks
                &&& targets@.len() > 0 ==> (final(self).phase is Storing) && final(self).acks == 0
                    && final(self).pending_acks@ == targets@.map_values(|c: Contact| c.id)
            },
    {
        let advance = match self.phase {
            StorePhase::Finding => self.lookup.done,
            _ => false,
        };
        if !advance {
            return Vec::new();
        }
        let targets = self.lookup.final_closest();
        if targets.len() == 0 {
            self.phase = StorePhase::Done;
            self.succeeded = false;
            return targets;
        }
        let mut pending: Vec<u64> = Vec::new();
        let mut i: usize = 0;
        while i < targets.len()
            invariant
                i <= targets@.len(),
                targets@.len() <= K,
                contact_ids_unique(targets@),
                pending@ == targets@.map_values(|c: Contact| c.id).take(i as int),
            decreases targets@.len() - i,
        {
            pending.push(targets[i].id);
            proof {
                assert(pending@ =~= targets@.map_values(|c: Contact| c.id).take(i + 1));
            }
            i = i + 1;
        }
        proof {
            let ids = targets@.map_values(|c: Contact| c.id);
            assert(pending@ =~= ids);
            assert forall|a: int, b: int| 0 <= a < b < pending@.len() implies pending@[a]
                != pending@[b] by {
                assert(pending@[a] == targets@[a].id);
                assert(pending@[b] == targets@[b].id);
            }
        }
        self.pending_acks = pending;
        self.acks = 0;
        self.phase = StorePhase::Storing;
        targets
    }

    /// Counts one peer's STORE acknowledgment. The query completes
    /// successfully the moment the quorum is reached — with quorum one, the
    /// very first acknowledgment — even while other requests are still
    /// outstanding.
    pub fn on_store_ack(&mut self, from: u64)
        requires
            old(self).wf(),
        ensures
            final(self).wf(),
            final(self).record == old(self).record,
            final(self).quorum == old(self).quorum,
            final(self).lookup == old(self).lookup,
            !((old(self).phase is Storing) && id_in(old(self).pending_acks@, from))
                ==> *final(self) == *old(self),
            (old(self).phase is Storing) && id_in(old(self).pending_acks@, from) ==> {
                &&& final(self).acks == old(self).acks + 1
                &&& !id_in(final(self).pending_acks@, from)
                &&& old(self).acks + 1 >= old(self).quorum ==> (final(self).phase is Done)
                    && final(self).succeeded
                &&& old(self).acks + 1 < old(self).quorum ==> (final(self).phase is Storing)
                    && final(self).succeeded == old(self).succeeded
            },
    {
        let storing = match self.phase {
            StorePhase::Storing => true,
            _ => false,
        };
        if !storing {
            return ;
        }
        if crate::query::find_id(&self.pending_acks, from).is_none() {
            return ;
        }
        let _ = crate::query::take_out_id(&mut self.pending_acks, from);
        self.acks = self.acks + 1;
        if self.acks >= self.quorum {
            self.phase = StorePhase::Done;
            self.succeeded = true;
        }
    }

    /// Records one peer's STORE failure: the peer is no longer awaited, and
    /// when every request has been answered or failed the query finalizes
    /// with whatever count it has.
    pub fn on_store_fail(&mut self, from: u64)
        requires
            old(self).wf(),
        ensures
            final(self).wf(),
            final(self).record == old(self).record,
            final(self).quorum == old(self).quorum,
            final(self).lookup == old(self).lookup,
            final(self).acks == old(self).acks,
            !((old(self).phase is Storing) && id_in(old(self).pending_acks@, from))
                ==> *final(self) == *old(self),
            (old(self).phase is Storing) && id_in(old(self).pending_acks@, from)
                && final(self).pending_acks@.len() == 0 ==> (final(self).phase is Done)
                && final(self).succeeded == (old(self).acks >= old(self).quorum),
    {
        let storing = match self.phase {
            StorePhase::Storing => true,
            _ => false,
        };
        if !storing {
            return ;
        }
        if crate::query::find_id(&self.pending_acks, from).is_none() {
            return ;
        }
        let _ = crate::query::take_out_id(&mut self.pending_acks, from);
        if self.pending_acks.len() == 0 {
            self.phase = StorePhase::Done;
            self.succeeded = self.acks >= self.quorum;
        }
    }

    /// Applies the passage of time: past the deadline the query finalizes
    /// with whatever acknowledgments arrived; fewer than the quorum is a
    /// partial failure, never a hard error.
    pub fn on_tick(&mut self, now: u64)
        requires
            old(self).wf(),
        ensures
            final(self).wf(),
            final(self).record == old(self).record,
            final(self).quorum == old(self).quorum,
            final(self).acks == old(self).acks,
            (old(self).phase is Done) || now < old(self).lookup.deadline
                ==> *final(self) == *old(self),
            !(old(self).phase is Done) && now >= old(self).lookup.deadline
                ==> (final(self).phase is Done) && final(self).succeeded == (old(self).acks
                >= old(self).quorum),
    {
        let done = match self.phase {
            StorePhase::Done => true,
            _ => false,
        };
        if done {
            return ;
        }
        if now >= self.lookup.deadline {
            self.phase = StorePhase::Done;
            self.succeeded = self.acks >= self.quorum;
        }
    }
}

} // verus!
