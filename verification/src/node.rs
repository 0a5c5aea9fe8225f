//! The node: the single owner of the record store, the routing table and
//! the active queries. The event loop of the embedding program feeds it one
//! event at a time — a completed line of user input, an inbound protocol
//! message, a peer's answer or failure, the passage of time — and performs
//! the actions it hands back: text to show the user, requests to send,
//! pings to attempt, or termination. All state mutation happens here, on
//! one logical thread; nothing else writes the store or the table.

use vstd::prelude::*;
use crate::bytes::copy_bytes;
use crate::command::{Command, parse_command};
use crate::dist::key_id;
use crate::query::{Lookup, LookupKind};
use crate::replicate::{StoreQuery, StorePhase};
use crate::store::{Record, RecordStore, RecData};
use crate::table::{Contact, ContactData, RoutingTable, SeenResult, seq_has_view};
use crate::{K, QUERY_TIMEOUT_MS};

verus! {

/// An event the loop feeds the node.
pub enum Event {
    /// One completed line of user input.
    Line(Vec<u8>),
    /// The input producer closed its channel: end of input.
    InputClosed,
    /// A peer was seen on the wire.
    PeerSeen(Contact),
    /// The outcome of a liveness ping the node asked for.
    PingResult { candidate: Contact, alive: bool },
    /// A peer's answer to a FIND_NODE or FIND_VALUE request of query `qid`.
    Response { qid: u64, from: u64, closer: Vec<Contact>, value: Option<Record> },
    /// A peer acknowledged a STORE request of query `qid`.
    StoreAck { qid: u64, from: u64 },
    /// A request of query `qid` to a peer failed or timed out.
    PeerFailed { qid: u64, from: u64 },
    /// A peer asks this node to store a record.
    InboundStore { from: u64, record: Record },
    /// A peer asks this node for a value.
    InboundFindValue { reqid: u64, from: u64, key: Vec<u8> },
    /// A peer asks this node for the contacts closest to a target.
    InboundFindNode { reqid: u64, from: u64, target: u64 },
    /// The passage of time.
    Tick,
}

/// User-visible output; the embedding program renders it.
pub enum Report {
    /// The usage text.
    Usage,
    /// A record was stored in the local store.
    StoredLocally { key: Vec<u8> },
    /// Replication of a record to the network began.
    Publishing { key: Vec<u8> },
    /// A Store query reached its quorum.
    PublishOk { key: Vec<u8> },
    /// A Store query finalized under its quorum; the local copy stands.
    PublishUnderQuorum { key: Vec<u8>, acks: usize, quorum: usize },
    /// A `get` hit the local store.
    FoundLocal { key: Vec<u8>, value: Vec<u8> },
    /// A `get` was answered by the network.
    FoundRemote { key: Vec<u8>, value: Vec<u8> },
    /// A `get` found nothing, locally or in the network.
    NotFound { key: Vec<u8> },
    /// A network lookup for a key began.
    QueryingNetwork { key: Vec<u8> },
    /// The node is shutting down.
    Exiting,
}

/// An action the embedding program must perform.
#[allow(inconsistent_fields)]
pub enum Action {
    /// Show output to the user.
    Tell(Report),
    /// Send a FIND_VALUE request for query `qid`.
    SendFindValue { qid: u64, to: Contact, key: Vec<u8> },
    /// Send a FIND_NODE request for query `qid`.
    SendFindNode { qid: u64, to: Contact, target: u64 },
    /// Send a STORE request for query `qid`.
    SendStore { qid: u64, to: Contact, key: Vec<u8>, value: Vec<u8> },
    /// Ping a bucket's least-recently-seen contact; `candidate` is the new
    /// contact waiting for the outcome.
    Ping { lru: Contact, candidate: Contact },
    /// Answer a peer's FIND_VALUE request.
    ReplyValue { reqid: u64, to: u64, value: Option<Vec<u8>>, closer: Vec<Contact> },
    /// Answer a peer's FIND_NODE request.
    ReplyNodes { reqid: u64, to: u64, closer: Vec<Contact> },
    /// Stop the event loop.
    Terminate,
}

/// One in-flight query, keyed by its identifier.
pub struct ActiveQuery {
    pub qid: u64,
    pub body: QueryBody,
}

/// What an active query is doing.
pub enum QueryBody {
    /// A `get` that missed locally: a FIND_VALUE lookup for `key`.
    Retrieve { key: Vec<u8>, lookup: Lookup },
    /// A `put`'s replication: a Store query.
    Publish(StoreQuery),
}

/// Validity of one active query.
pub open spec fn query_wf(aq: ActiveQuery) -> bool {
    match aq.body {
        QueryBody::Retrieve { key, lookup } => lookup.wf() && (lookup.kind is FindValue)
            && !lookup.done,
        QueryBody::Publish(sq) => sq.wf() && !(sq.phase is Done),
    }
}

/// The earlier action list is an untouched prefix of the later one.
pub open spec fn extends(acts: Seq<Action>, prev: Seq<Action>) -> bool {
    acts.len() >= prev.len() && acts.take(prev.len() as int) == prev
}

/// The node aggregate.
pub struct Node {
    pub local_id: u64,
    pub store: RecordStore,
    pub table: RoutingTable,
    pub queries: Vec<ActiveQuery>,
    pub next_qid: u64,
    pub running: bool,
}

impl Node {
    /// Internal invariant: store and table are valid, the table belongs to
    /// this node, query identifiers are unique and below the allocator, and
    /// every active query is valid and still in flight.
    pub open spec fn wf(&self) -> bool {
        &&& self.store.wf()
        &&& self.table.wf()
        &&& self.table.local_id == self.local_id
        &&& forall|i: int, j: int|
            0 <= i < j < self.queries@.len() ==> (#[trigger] self.queries@[i]).qid != (
            #[trigger] self.queries@[j]).qid
        &&& forall|i: int|
            0 <= i < self.queries@.len() ==> (#[trigger] self.queries@[i]).qid < self.next_qid
        &&& forall|i: int| 0 <= i < self.queries@.len() ==> query_wf(#[trigger] self.queries@[i])
    }

    /// Creates a fresh node: empty store, empty routing table, no queries,
    /// running.
    pub fn new(local_id: u64) -> (n: Node)
        ensures
            n.wf(),
            n.local_id == local_id,
            n.running,
            n.store@ == Map::<Seq<u8>, RecData>::empty(),
            n.queries@.len() == 0,
            forall|cd: ContactData| !n.table.in_table(cd),
    {
        Node {
            local_id,
            store: RecordStore::new(),
            table: RoutingTable::new(local_id),
            queries: Vec::new(),
            next_qid: 0,
            running: true,
        }
    }

    /// Dispatches one structured command, per the command surface: `put`
    /// stores locally at once — that write always succeeds — and then
    /// triggers an asynchronous Store query with quorum one; `get` answers
    /// from the local store on a hit and otherwise starts a FIND_VALUE
    /// lookup, which on an empty routing table exhausts immediately and
    /// reports not found without waiting for any timeout; `exit` stops the
    /// loop and abandons every active query; unrecognized input produces
    /// the usage text and changes nothing; a blank line does nothing.
    pub fn handle_command(&mut self, cmd: Command, now: u64) -> (acts: Vec<Action>)
        requires
            old(self).wf(),
            now <= u64::MAX - QUERY_TIMEOUT_MS,
            old(self).next_qid < u64::MAX,
        ensures
            final(self).wf(),
            final(self).local_id == old(self).local_id,
            final(self).table == old(self).table,
            cmd matches Command::Put { key, value } ==> {
                &&& final(self).store@ == old(self).store@.insert(
                    key@,
                    RecData {
                        key: key@,
                        value: value@,
                        publisher: Some(old(self).local_id),
                        inserted_at: now,
                    },
                )
                &&& final(self).running == old(self).running
                &&& acts@.len() >= 2
                &&& (acts@[0] matches Action::Tell(r) && r matches Report::StoredLocally {
                    key: k,
                } && k@ == key@)
                &&& (acts@[1] matches Action::Tell(r) && r matches Report::Publishing { key: k }
                    && k@ == key@)
                &&& (forall|cd: ContactData| !old(self).table.in_table(cd)) ==> final(self).queries@ == old(self).queries@ && acts@.len() == 3 && (acts@[2]
                    matches Action::Tell(r) && r matches Report::PublishUnderQuorum {
                    key: k,
                    acks,
                    quorum,
                } && k@ == key@ && acks == 0 && quorum == 1)
            },
            cmd matches Command::Get { key } ==> {
                &&& final(self).store@ == old(self).store@
                &&& final(self).running == old(self).running
                &&& old(self).store@.contains_key(key@) ==> final(self).queries@ == old(self).queries@ && acts@.len() == 1 && (acts@[0] matches Action::Tell(r)
                    && r matches Report::FoundLocal { key: k, value: v } && k@ == key@ && v@ == old(self).store@[key@].value)
                &&& (!old(self).store@.contains_key(key@) && (forall|cd: ContactData|
                    !old(self).table.in_table(cd))) ==> final(self).queries@ == old(self).queries@ && acts@.len() == 2 && (acts@[0] matches Action::Tell(r)
                    && r matches Report::QueryingNetwork { key: k } && k@ == key@) && (acts@[1]
                    matches Action::Tell(r) && r matches Report::NotFound { key: k } && k@ == key@)
            },
            cmd is Exit ==> !final(self).running && final(self).queries@.len() == 0 && final(self).store@ == old(self).store@ && acts@.len() == 2 && (acts@[0]
                matches Action::Tell(r) && r is Exiting) && acts@[1] is Terminate,
            cmd is Unrecognized ==> *final(self) == *old(self) && acts@.len() == 1 && (acts@[0]
                matches Action::Tell(r) && r is Usage),
            cmd is Empty ==> *final(self) == *old(self) && acts@.len() == 0,
    {
        let mut acts: Vec<Action> = Vec::new();
        match cmd {
            Command::Empty => acts,
            Command::Unrecognized => {
                acts.push(Action::Tell(Report::Usage));
                acts
            },
            Command::Exit => {
                self.running = false;
                self.queries.clear();
                acts.push(Action::Tell(Report::Exiting));
                acts.push(Action::Terminate);
                acts
            },
            Command::Put { key, value } => {
                let rec = Record {
                    key: copy_bytes(&key),
                    value: copy_bytes(&value),
                    publisher: Some(self.local_id),
                    inserted_at: now,
                };
                let keep = rec.duplicate();
                self.store.put(rec);
                acts.push(Action::Tell(Report::StoredLocally { key: copy_bytes(&key) }));
                acts.push(Action::Tell(Report::Publishing { key: copy_bytes(&key) }));
                let target = key_id(&key);
                let seed = self.table.closest(target, K);
                let ghost seedview = seed@;
                let sq = StoreQuery::new(keep, target, 1, seed, now);
                let qid = self.next_qid;
                self.next_qid = self.next_qid + 1;
                proof {
                    if seedview.len() > 0 {
                        assert(old(self).table.in_table(seedview[0]@));
                    }
                }
                let ghost a2 = acts@;
                self.publish_progress(qid, sq, &mut acts);
                proof {
                    assert(acts@.take(a2.len() as int) == a2);
                    assert(acts@[0] == a2[0]);
                    assert(acts@[1] == a2[1]);
                    if acts@.len() == 3 {
                        assert(acts@[2] == acts@.last());
                    }
                }
                acts
            },
            Command::Get { key } => {
                let hit = match self.store.get(&key) {
                    Some(rec) => Some((copy_bytes(&rec.key), copy_bytes(&rec.value))),
                    None => None,
                };
                match hit {
                    Some((k, v)) => {
                        acts.push(Action::Tell(Report::FoundLocal { key: k, value: v }));
                        acts
                    },
                    None => {
                        acts.push(Action::Tell(Report::QueryingNetwork {
                            key: copy_bytes(&key),
                        }));
                        let target = key_id(&key);
                        let seed = self.table.closest(target, K);
                        let ghost seedview = seed@;
                        let lookup = Lookup::new(LookupKind::FindValue, target, seed, now);
                        let qid = self.next_qid;
                        self.next_qid = self.next_qid + 1;
                        proof {
                            if seedview.len() > 0 {
                                assert(old(self).table.in_table(seedview[0]@));
                            }
                        }
                        let ghost a1 = acts@;
                        self.retrieve_progress(qid, key, lookup, &mut acts);
                        proof {
                            assert(acts@.take(a1.len() as int) == a1);
                            assert(acts@[0] == a1[0]);
                            if acts@.len() == 2 {
                                assert(acts@[1] == acts@.last());
                            }
                        }
                        acts
                    },
                }
            },
        }
    }

    /// Drives a retrieval lookup: starts its next round, sends the requests
    /// it selects, and finalizes it — caching and reporting a found value,
    /// or reporting not found — once it terminates. A lookup still in
    /// flight rejoins the active set.
    fn retrieve_progress(&mut self, qid: u64, key: Vec<u8>, lookup: Lookup, acts: &mut Vec<
        Action,
    >)
        requires
            old(self).wf(),
            lookup.wf(),
            lookup.kind is FindValue,
            qid < old(self).next_qid,
            forall|i: int|
                0 <= i < old(self).queries@.len() ==> (#[trigger] old(self).queries@[i]).qid
                    != qid,
        ensures
            final(self).wf(),
            final(self).local_id == old(self).local_id,
            final(self).table == old(self).table,
            final(self).running == old(self).running,
            final(self).next_qid == old(self).next_qid,
            extends(final(acts)@, old(acts)@),
            final(self).queries@.len() == old(self).queries@.len() ==> final(self).queries@
                == old(self).queries@,
            final(self).queries@.len() == old(self).queries@.len() + 1 ==> final(
                self).queries@.take(old(self).queries@.len() as int) == old(self).queries@
                && final(self).queries@.last().qid == qid,
            final(self).queries@.len() <= old(self).queries@.len() + 1,
            final(self).queries@.len() >= old(self).queries@.len(),
            !(lookup.found is Some) ==> final(self).store@ == old(self).store@,
            lookup.done || (!lookup.done && lookup.candidates@.len() == 0
                && lookup.pending@.len() == 0) ==> {
                &&& final(self).queries@ == old(self).queries@
                &&& final(acts)@.len() == old(acts)@.len() + 1
                &&& (lookup.found is None ==> (final(acts)@.last() matches Action::Tell(r)
                    && r matches Report::NotFound { key: k } && k@ == key@))
                &&& (lookup.found is Some ==> (final(acts)@.last() matches Action::Tell(r)
                    && r is FoundRemote))
            },
    {
        let ghost l0 = lookup;
        let mut lookup = lookup;
        let mut reqs: Vec<Contact> = Vec::new();
        if !lookup.done {
            reqs = lookup.start_round();
        }
        if !lookup.done {
            proof {
                if !l0.done && l0.candidates@.len() == 0 && l0.pending@.len() == 0 {
                    if reqs@.len() > 0 {
                        assert(seq_has_view(l0.candidates@, reqs@[0]@));
                    }
                    assert(false);
                }
            }
            let ghost p0 = acts@;
            proof {
                assert(acts@.take(p0.len() as int) =~= p0);
            }
            let mut i: usize = 0;
            while i < reqs.len()
                invariant
                    i <= reqs@.len(),
                    extends(acts@, p0),
                decreases reqs@.len() - i,
            {
                let ghost p1 = acts@;
                acts.push(Action::SendFindValue {
                    qid,
                    to: reqs[i].duplicate(),
                    key: copy_bytes(&key),
                });
                proof {
                    assert(acts@.take(p0.len() as int) =~= p1.take(p0.len() as int));
                }
                i = i + 1;
            }
            let aq = ActiveQuery { qid, body: QueryBody::Retrieve { key, lookup } };
            self.queries.push(aq);
            proof {
                assert(self.queries@.take(old(self).queries@.len() as int) =~= old(
                    self).queries@);
                assert forall|i2: int, j2: int|
                    0 <= i2 < j2 < self.queries@.len() implies (#[trigger] self.queries@[i2]).qid
                    != (#[trigger] self.queries@[j2]).qid by {
                    assert(self.queries@[i2] == old(self).queries@[i2]);
                    if j2 < self.queries@.len() - 1 {
                        assert(self.queries@[j2] == old(self).queries@[j2]);
                    }
                }
            }
            return ;
        }
        let ghost p0 = acts@;
        match lookup.found {
            Some(rec) => {
                let k = copy_bytes(&rec.key);
                let v = copy_bytes(&rec.value);
                self.store.put(rec);
                acts.push(Action::Tell(Report::FoundRemote { key: k, value: v }));
            },
            None => {
                acts.push(Action::Tell(Report::NotFound { key }));
            },
        }
        proof {
            assert(acts@.take(p0.len() as int) =~= p0);
        }
    }

    /// Drives a Store query: runs its discovery rounds, moves it to the
    /// storing phase when discovery terminates, sends the STORE requests,
    /// and reports the outcome — reached quorum or under quorum — once it
    /// finalizes. A query still in flight rejoins the active set.
    fn publish_progress(&mut self, qid: u64, sq: StoreQuery, acts: &mut Vec<Action>)
        requires
            old(self).wf(),
            sq.wf(),
            qid < old(self).next_qid,
            forall|i: int|
                0 <= i < old(self).queries@.len() ==> (#[trigger] old(self).queries@[i]).qid
                    != qid,
        ensures
            final(self).wf(),
            final(self).local_id == old(self).local_id,
            final(self).table == old(self).table,
            final(self).store@ == old(self).store@,
            final(self).running == old(self).running,
            final(self).next_qid == old(self).next_qid,
            extends(final(acts)@, old(acts)@),
            final(self).queries@.len() == old(self).queries@.len() ==> final(self).queries@
                == old(self).queries@,
            final(self).queries@.len() == old(self).queries@.len() + 1 ==> final(
                self).queries@.take(old(self).queries@.len() as int) == old(self).queries@
                && final(self).queries@.last().qid == qid,
            final(self).queries@.len() <= old(self).queries@.len() + 1,
            final(self).queries@.len() >= old(self).queries@.len(),
            (sq.phase is Finding) && !sq.lookup.done && sq.lookup.candidates@.len() == 0 && sq
                .lookup.pending@.len() == 0 ==> {
                &&& final(self).queries@ == old(self).queries@
                &&& final(acts)@.len() == old(acts)@.len() + 1
                &&& (final(acts)@.last() matches Action::Tell(r)
                    && r matches Report::PublishUnderQuorum { key: k, acks, quorum } && k@ == sq
                    .record.key@ && acks == sq.acks && quorum == sq.quorum)
            },
    {
        let ghost s0 = sq;
        let mut sq = sq;
        let finding = match sq.phase {
            StorePhase::Finding => true,
            _ => false,
        };
        let ghost p0 = acts@;
        proof {
            assert(acts@.take(p0.len() as int) =~= p0);
        }
        if finding && !sq.lookup.done {
            let reqs = sq.lookup.start_round();
            proof {
                if s0.lookup.candidates@.len() == 0 && s0.lookup.pending@.len() == 0 {
                    if reqs@.len() > 0 {
                        assert(seq_has_view(s0.lookup.candidates@, reqs@[0]@));
                    }
                    assert(reqs@.len() == 0);
                    assert(sq.lookup.done);
                }
            }
            let target = sq.lookup.target;
            let mut i: usize = 0;
            while i < reqs.len()
                invariant
                    i <= reqs@.len(),
                    acts@.len() == p0.len() + i,
                    extends(acts@, p0),
                decreases reqs@.len() - i,
            {
                let ghost p1 = acts@;
                acts.push(Action::SendFindNode { qid, to: reqs[i].duplicate(), target });
                proof {
                    assert(acts@.take(p0.len() as int) =~= p1.take(p0.len() as int));
                }
                i = i + 1;
            }
        }
        let targets = sq.advance_if_found();
        let ghost p1 = acts@;
        let mut i: usize = 0;
        while i < targets.len()
            invariant
                i <= targets@.len(),
                acts@.len() == p1.len() + i,
                p1.len() >= p0.len(),
                extends(p1, p0),
                extends(acts@, p0),
            decreases targets@.len() - i,
        {
            let ghost p2 = acts@;
            acts.push(Action::SendStore {
                qid,
                to: targets[i].duplicate(),
                key: copy_bytes(&sq.record.key),
                value: copy_bytes(&sq.record.value),
            });
            proof {
                assert(acts@.take(p0.len() as int) =~= p2.take(p0.len() as int));
            }
            i = i + 1;
        }
        let done = match sq.phase {
            StorePhase::Done => true,
            _ => false,
        };
        if done {
            let ghost p1 = acts@;
            if sq.succeeded {
                acts.push(Action::Tell(Report::PublishOk { key: copy_bytes(&sq.record.key) }));
            } else {
                acts.push(Action::Tell(Report::PublishUnderQuorum {
                    key: copy_bytes(&sq.record.key),
                    acks: sq.acks,
                    quorum: sq.quorum,
                }));
            }
            proof {
                assert(acts@.take(p0.len() as int) =~= p1.take(p0.len() as int));
            }
            return ;
        }
        let aq = ActiveQuery { qid, body: QueryBody::Publish(sq) };
        self.queries.push(aq);
        proof {
            assert(self.queries@.take(old(self).queries@.len() as int) =~= old(self).queries@);
            assert forall|i2: int, j2: int|
                0 <= i2 < j2 < self.queries@.len() implies (#[trigger] self.queries@[i2]).qid != (
                #[trigger] self.queries@[j2]).qid by {
                assert(self.queries@[i2] == old(self).queries@[i2]);
                if j2 < self.queries@.len() - 1 {
                    assert(self.queries@[j2] == old(self).queries@[j2]);
                }
            }
        }
    }
}

/// The effect of removing index `i` by swapping in the last element: every
/// survivor is one of the original entries, at a known place.
proof fn lemma_swap_remove(pre: Seq<ActiveQuery>, post: Seq<ActiveQuery>, i: int)
    requires
        0 <= i < pre.len(),
        post == pre.update(i, pre.last()).drop_last(),
    ensures
        post.len() == pre.len() - 1,
        forall|q: int|
            0 <= q < post.len() ==> post[q] == (if q == i {
                pre[pre.len() - 1]
            } else {
                pre[q]
            }),
{
    assert forall|q: int| 0 <= q < post.len() implies post[q] == (if q == i {
        pre[pre.len() - 1]
    } else {
        pre[q]
    }) by {
        assert(post[q] == pre.update(i, pre.last())[q]);
    }
}

impl Node {
    /// Looks up the active query with the given identifier.
    fn find_query(&self, qid: u64) -> (r: Option<usize>)
        ensures
            match r {
                Some(i) => i < self.queries@.len() && self.queries@[i as int].qid == qid,
                None => forall|i: int|
                    0 <= i < self.queries@.len() ==> (#[trigger] self.queries@[i]).qid != qid,
            },
    {
        let mut i: usize = 0;
        while i < self.queries.len()
            invariant
                i <= self.queries@.len(),
                forall|q: int| 0 <= q < i ==> (#[trigger] self.queries@[q]).qid != qid,
            decreases self.queries@.len() - i,
        {
            if self.queries[i].qid == qid {
                return Some(i);
            }
            i = i + 1;
        }
        None
    }

    /// Takes the query with identifier `qid` out of the active set, if it is
    /// there.
    fn take_query(&mut self, qid: u64) -> (r: Option<ActiveQuery>)
        requires
            old(self).wf(),
        ensures
            final(self).wf(),
            final(self).local_id == old(self).local_id,
            final(self).table == old(self).table,
            final(self).store == old(self).store,
            final(self).running == old(self).running,
            final(self).next_qid == old(self).next_qid,
            match r {
                Some(aq) => {
                    &&& query_wf(aq)
                    &&& aq.qid == qid
                    &&& aq.qid < old(self).next_qid
                    &&& forall|i: int|
                        0 <= i < final(self).queries@.len() ==> (#[trigger] final(
                            self).queries@[i]).qid != qid
                    &&& final(self).queries@.len() == old(self).queries@.len() - 1
                },
                None => *final(self) == *old(self) && (forall|i: int|
                    0 <= i < old(self).queries@.len() ==> (#[trigger] old(self).queries@[i]).qid
                        != qid),
            },
    {
        match self.find_query(qid) {
            None => None,
            Some(i) => {
                let ghost pre = self.queries@;
                let aq = self.queries.swap_remove(i);
                proof {
                    lemma_swap_remove(pre, self.queries@, i as int);
                    assert forall|a: int, b: int|
                        0 <= a < b < self.queries@.len() implies (
                        #[trigger] self.queries@[a]).qid != (#[trigger] self.queries@[b]).qid by {
                        let wa = if a == i { pre.len() - 1 } else { a };
                        let wb = if b == i { pre.len() - 1 } else { b };
                        assert(self.queries@[a] == pre[wa]);
                        assert(self.queries@[b] == pre[wb]);
                        assert(pre[wa].qid != pre[wb].qid);
                    }
                    assert forall|q: int| 0 <= q < self.queries@.len() implies query_wf(
                        #[trigger] self.queries@[q],
                    ) && self.queries@[q].qid < self.next_qid && self.queries@[q].qid != qid by {
                        let w = if q == i { pre.len() - 1 } else { q };
                        assert(self.queries@[q] == pre[w]);
                        if w != i {
                            assert(pre[w].qid != pre[i as int].qid);
                        }
                    }
                }
                Some(aq)
            },
        }
    }

    /// Feeds the node one event. A node that is no longer running ignores
    /// everything: an abandoned query's late completion has no observable
    /// effect. Otherwise: a line of input is parsed and dispatched; the end
    /// of input stops the loop; a seen peer enters the routing table, with a
    /// ping request when its bucket is full; ping outcomes settle such
    /// conflicts — a healthy bucket stays exactly as it was; peer answers,
    /// acknowledgments and failures drive the owning query, whose result is
    /// reported when it terminates; inbound protocol requests are answered
    /// from the store and the table; and a tick applies the passage of time
    /// to every query, finalizing those whose deadline has elapsed.
    pub fn handle_event(&mut self, ev: Event, now: u64) -> (acts: Vec<Action>)
        requires
            old(self).wf(),
            now <= u64::MAX - QUERY_TIMEOUT_MS,
            old(self).next_qid < u64::MAX,
        ensures
            final(self).wf(),
            final(self).local_id == old(self).local_id,
            !old(self).running ==> *final(self) == *old(self) && acts@.len() == 0,
            old(self).running ==> (ev matches Event::InboundStore { from, record } ==> final(
                self).store@ == old(self).store@.insert(record.key@, record@)),
            old(self).running ==> (ev matches Event::PingResult { candidate, alive } && alive
                ==> *final(self) == *old(self)),
            old(self).running ==> (ev is InputClosed ==> !final(self).running && final(
                self).queries@.len() == 0),
            old(self).running && !(ev is Line) && !(ev is InputClosed) ==> final(self).running,
    {
        let mut acts: Vec<Action> = Vec::new();
        if !self.running {
            return acts;
        }
        match ev {
            Event::Line(line) => {
                let cmd = parse_command(&line);
                self.handle_command(cmd, now)
            },
            Event::InputClosed => {
                self.running = false;
                self.queries.clear();
                acts.push(Action::Terminate);
                acts
            },
            Event::PeerSeen(c) => {
                let candidate = c.duplicate();
                match self.table.record_seen(c) {
                    SeenResult::BucketFull(lru) => {
                        acts.push(Action::Ping { lru, candidate });
                    },
                    _ => {},
                }
                acts
            },
            Event::PingResult { candidate, alive } => {
                self.table.ping_outcome(candidate, alive);
                acts
            },
            Event::Response { qid, from, closer, value } => {
                match self.take_query(qid) {
                    None => acts,
                    Some(aq) => {
                        match aq.body {
                            QueryBody::Retrieve { key, lookup } => {
                                let mut lookup = lookup;
                                lookup.on_response(from, closer, value);
                                self.retrieve_progress(qid, key, lookup, &mut acts);
                            },
                            QueryBody::Publish(sq) => {
                                let mut sq = sq;
                                sq.lookup.on_response(from, closer, None);
                                self.publish_progress(qid, sq, &mut acts);
                            },
                        }
                        acts
                    },
                }
            },
            Event::StoreAck { qid, from } => {
                match self.take_query(qid) {
                    None => acts,
                    Some(aq) => {
                        match aq.body {
                            QueryBody::Retrieve { key, lookup } => {
                                self.retrieve_progress(qid, key, lookup, &mut acts);
                            },
                            QueryBody::Publish(sq) => {
                                let mut sq = sq;
                                sq.on_store_ack(from);
                                self.publish_progress(qid, sq, &mut acts);
                            },
                        }
                        acts
                    },
                }
            },
            Event::PeerFailed { qid, from } => {
                match self.take_query(qid) {
                    None => acts,
                    Some(aq) => {
                        match aq.body {
                            QueryBody::Retrieve { key, lookup } => {
                                let mut lookup = lookup;
                                lookup.on_failure(from);
                                self.retrieve_progress(qid, key, lookup, &mut acts);
                            },
                            QueryBody::Publish(sq) => {
                                let mut sq = sq;
                                sq.lookup.on_failure(from);
                                sq.on_store_fail(from);
                                self.publish_progress(qid, sq, &mut acts);
                            },
                        }
                        acts
                    },
                }
            },
            Event::InboundStore { from: _, record } => {
                self.store.put(record);
                acts
            },
            Event::InboundFindValue { reqid, from, key } => {
                let value = match self.store.get(&key) {
                    Some(rec) => Some(copy_bytes(&rec.value)),
                    None => None,
                };
                let target = key_id(&key);
                let closer = self.table.closest(target, K);
                acts.push(Action::ReplyValue { reqid, to: from, value, closer });
                acts
            },
            Event::InboundFindNode { reqid, from, target } => {
                let closer = self.table.closest(target, K);
                acts.push(Action::ReplyNodes { reqid, to: from, closer });
                acts
            },
            Event::Tick => {
                let mut work: Vec<ActiveQuery> = Vec::new();
                while self.queries.len() > 0
                    invariant
                        self.wf(),
                        self.local_id == old(self).local_id,
                        self.table == old(self).table,
                        self.store == old(self).store,
                        self.running == old(self).running,
                        self.next_qid == old(self).next_qid,
                        forall|a: int, b: int|
                            0 <= a < b < work@.len() ==> (#[trigger] work@[a]).qid != (
                            #[trigger] work@[b]).qid,
                        forall|a: int|
                            0 <= a < work@.len() ==> query_wf(#[trigger] work@[a]) && work@[a].qid
                                < self.next_qid,
                        forall|a: int, b: int|
                            0 <= a < work@.len() && 0 <= b < self.queries@.len() ==> (
                            #[trigger] work@[a]).qid != (#[trigger] self.queries@[b]).qid,
                    decreases self.queries@.len(),
                {
                    let popped = self.queries.pop();
                    match popped {
                        Some(aq) => {
                            work.push(aq);
                        },
                        None => {},
                    }
                }
                while work.len() > 0
                    invariant
                        self.wf(),
                        self.local_id == old(self).local_id,
                        self.table == old(self).table,
                        self.running == old(self).running,
                        self.next_qid == old(self).next_qid,
                        forall|a: int, b: int|
                            0 <= a < b < work@.len() ==> (#[trigger] work@[a]).qid != (
                            #[trigger] work@[b]).qid,
                        forall|a: int|
                            0 <= a < work@.len() ==> query_wf(#[trigger] work@[a]) && work@[a].qid
                                < self.next_qid,
                        forall|a: int, b: int|
                            0 <= a < work@.len() && 0 <= b < self.queries@.len() ==> (
                            #[trigger] work@[a]).qid != (#[trigger] self.queries@[b]).qid,
                    decreases work@.len(),
                {
                    let ghost pre_work = work@;
                    let popped = work.pop();
                    match popped {
                        Some(aq) => {
                            let ghost pre_queries = self.queries@;
                            let qid = aq.qid;
                            proof {
                                assert(work@ == pre_work.drop_last());
                                assert forall|a: int| 0 <= a < work@.len() implies (
                                #[trigger] work@[a]).qid != aq.qid by {
                                    assert(work@[a] == pre_work[a]);
                                    assert(pre_work[a].qid != pre_work[pre_work.len() - 1].qid);
                                }
                            }
                            match aq.body {
                                QueryBody::Retrieve { key, lookup } => {
                                    let mut lookup = lookup;
                                    lookup.on_tick(now);
                                    self.retrieve_progress(qid, key, lookup, &mut acts);
                                },
                                QueryBody::Publish(sq) => {
                                    let mut sq = sq;
                                    sq.on_tick(now);
                                    if !(match sq.phase {
                                        StorePhase::Done => true,
                                        _ => false,
                                    }) {
                                        self.publish_progress(qid, sq, &mut acts);
                                    } else {
                                        if sq.succeeded {
                                            acts.push(Action::Tell(Report::PublishOk {
                                                key: copy_bytes(&sq.record.key),
                                            }));
                                        } else {
                                            acts.push(Action::Tell(Report::PublishUnderQuorum {
                                                key: copy_bytes(&sq.record.key),
                                                acks: sq.acks,
                                                quorum: sq.quorum,
                                            }));
                                        }
                                    }
                                },
                            }
                            proof {
                                assert forall|a: int, b: int|
                                    0 <= a < work@.len() && 0 <= b < self.queries@.len() implies (
                                #[trigger] work@[a]).qid != (#[trigger] self.queries@[b]).qid by {
                                    assert(work@[a] == pre_work[a]);
                                    if self.queries@.len() == pre_queries.len() + 1 {
                                        if b < pre_queries.len() {
                                            assert(self.queries@[b] == self.queries@.take(
                                                pre_queries.len() as int,
                                            )[b]);
                                            assert(self.queries@[b] == pre_queries[b]);
                                        } else {
                                            assert(self.queries@[b] == self.queries@.last());
                                        }
                                    } else {
                                        assert(self.queries@[b] == pre_queries[b]);
                                    }
                                }
                            }
                        },
                        None => {},
                    }
                }
                acts
            },
        }
    }
}

} // verus!
