use dht_node::query::{Lookup, LookupKind};
use dht_node::replicate::{StorePhase, StoreQuery};
use dht_node::store::Record;
use dht_node::table::Contact;
use dht_node::{NO_IMPROVEMENT_LIMIT, QUERY_TIMEOUT_MS};

fn contact(id: u64) -> Contact {
    Contact { id, addr: b"addr".to_vec() }
}

#[test]
fn lookup_terminates_after_no_improvement_limit() {
    // Target 0, seeded with the closest peer it will ever see: every round
    // merges only farther candidates, so no round improves on the best
    // distance, and the lookup must stop after NO_IMPROVEMENT_LIMIT rounds.
    let target: u64 = 0;
    let mut q = Lookup::new(LookupKind::FindNode, target, vec![contact(8)], 0);
    let mut next_id: u64 = 16;
    let mut rounds: u32 = 0;
    while !q.done {
        assert!(rounds <= NO_IMPROVEMENT_LIMIT, "lookup ran too many rounds");
        let reqs = q.start_round();
        if q.done {
            break;
        }
        for c in reqs {
            // Each peer answers with two peers even farther from the target.
            let farther = vec![contact(next_id), contact(next_id + 1)];
            next_id += 2;
            q.on_response(c.id, farther, None);
        }
        rounds += 1;
    }
    assert!(q.done);
    assert!(q.found.is_none());
    assert_eq!(q.stale_rounds, NO_IMPROVEMENT_LIMIT);
}

#[test]
fn lookup_deadline_terminates_with_partial_result() {
    let mut q = Lookup::new(LookupKind::FindValue, 5, vec![contact(9)], 100);
    let _ = q.start_round();
    assert!(!q.done);
    q.on_tick(100 + QUERY_TIMEOUT_MS);
    assert!(q.done);
    assert!(q.found.is_none());
}

#[test]
fn lookup_exhausts_empty_candidate_set() {
    let mut q = Lookup::new(LookupKind::FindValue, 5, Vec::new(), 0);
    let reqs = q.start_round();
    assert!(reqs.is_empty());
    assert!(q.done);
}

#[test]
fn find_value_short_circuits_on_value() {
    let mut q = Lookup::new(LookupKind::FindValue, 5, vec![contact(1), contact(2)], 0);
    let reqs = q.start_round();
    assert_eq!(reqs.len(), 2);
    let rec = Record {
        key: b"k".to_vec(),
        value: b"v".to_vec(),
        publisher: Some(1),
        inserted_at: 0,
    };
    // The first peer returns the value: the lookup terminates at once even
    // though the second answer is still outstanding.
    q.on_response(1, Vec::new(), Some(rec));
    assert!(q.done);
    let found = q.found.expect("value retrieved");
    assert_eq!(found.value, b"v".to_vec());
}

#[test]
fn store_query_with_quorum_one_succeeds_on_first_ack() {
    let rec = Record {
        key: b"k".to_vec(),
        value: b"v".to_vec(),
        publisher: Some(1),
        inserted_at: 0,
    };
    let mut sq = StoreQuery::new(rec, 7, 1, vec![contact(2), contact(3)], 0);
    // Drive the discovery lookup to completion: both peers answer with
    // nothing new, then the candidate set is exhausted.
    let reqs = sq.lookup.start_round();
    assert_eq!(reqs.len(), 2);
    sq.lookup.on_response(2, Vec::new(), None);
    sq.lookup.on_response(3, Vec::new(), None);
    let _ = sq.lookup.start_round();
    while !sq.lookup.done {
        sq.lookup.on_response(2, Vec::new(), None);
        let _ = sq.lookup.start_round();
    }
    let targets = sq.advance_if_found();
    assert_eq!(targets.len(), 2);
    assert!(matches!(sq.phase, StorePhase::Storing));
    // One acknowledgment reaches the quorum, with the other still pending.
    sq.on_store_ack(2);
    assert!(matches!(sq.phase, StorePhase::Done));
    assert!(sq.succeeded);
    assert_eq!(sq.acks, 1);
}

#[test]
fn store_query_under_quorum_on_deadline() {
    let rec = Record {
        key: b"k".to_vec(),
        value: b"v".to_vec(),
        publisher: Some(1),
        inserted_at: 0,
    };
    let mut sq = StoreQuery::new(rec, 7, 2, vec![contact(2)], 50);
    sq.on_tick(50 + QUERY_TIMEOUT_MS);
    assert!(matches!(sq.phase, StorePhase::Done));
    assert!(!sq.succeeded);
}
