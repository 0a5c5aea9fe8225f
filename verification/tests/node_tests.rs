use dht_node::node::{Action, Event, Node, Report};
use dht_node::table::Contact;
use dht_node::QUERY_TIMEOUT_MS;

fn line(s: &[u8]) -> Event {
    Event::Line(s.to_vec())
}

fn tell(acts: &[Action]) -> Vec<&Report> {
    acts.iter()
        .filter_map(|a| match a {
            Action::Tell(r) => Some(r),
            _ => None,
        })
        .collect()
}

#[test]
fn scenario_put_then_local_get() {
    // Empty node, no peers known: `put alice 1.2.3.4` stores locally and the
    // replication query finds zero candidates and reports under quorum —
    // no crash, the local copy stands.
    let mut n = Node::new(1);
    let acts = n.handle_event(line(b"put alice 1.2.3.4"), 0);
    let reports = tell(&acts);
    assert!(matches!(reports[0], Report::StoredLocally { key } if key == &b"alice".to_vec()));
    assert!(matches!(reports[1], Report::Publishing { key } if key == &b"alice".to_vec()));
    assert!(matches!(
        reports[2],
        Report::PublishUnderQuorum { key, acks: 0, quorum: 1 } if key == &b"alice".to_vec()
    ));
    assert_eq!(n.queries.len(), 0);

    let acts = n.handle_event(line(b"get alice"), 1);
    let reports = tell(&acts);
    assert_eq!(reports.len(), 1);
    assert!(matches!(
        reports[0],
        Report::FoundLocal { key, value }
            if key == &b"alice".to_vec() && value == &b"1.2.3.4".to_vec()
    ));
}

#[test]
fn scenario_get_miss_with_no_peers_reports_not_found_immediately() {
    // `get bob` on an empty store with no peers: the FIND_VALUE query
    // exhausts its empty candidate set at once — not after the timeout.
    let mut n = Node::new(1);
    let acts = n.handle_event(line(b"get bob"), 0);
    let reports = tell(&acts);
    assert_eq!(reports.len(), 2);
    assert!(matches!(reports[0], Report::QueryingNetwork { key } if key == &b"bob".to_vec()));
    assert!(matches!(reports[1], Report::NotFound { key } if key == &b"bob".to_vec()));
    assert_eq!(n.queries.len(), 0);
}

#[test]
fn scenario_malformed_put_prints_usage_and_stores_nothing() {
    let mut n = Node::new(1);
    let acts = n.handle_event(line(b"put onlykey"), 0);
    let reports = tell(&acts);
    assert_eq!(reports.len(), 1);
    assert!(matches!(reports[0], Report::Usage));
    // No store mutation: a get for the key misses.
    let acts = n.handle_event(line(b"get onlykey"), 1);
    let reports = tell(&acts);
    assert!(matches!(reports[1], Report::NotFound { .. }));
}

#[test]
fn scenario_exit_abandons_outstanding_query() {
    // With a known peer, a put leaves a Store query outstanding; `exit`
    // terminates and the query's eventual completion has no further
    // observable effect.
    let mut n = Node::new(1);
    n.handle_event(Event::PeerSeen(Contact { id: 99, addr: b"a".to_vec() }), 0);
    let acts = n.handle_event(line(b"put alice 1.2.3.4"), 0);
    assert!(acts.iter().any(|a| matches!(a, Action::SendFindNode { .. })));
    assert_eq!(n.queries.len(), 1);
    let qid = n.queries[0].qid;

    let acts = n.handle_event(line(b"exit"), 1);
    assert!(acts.iter().any(|a| matches!(a, Action::Terminate)));
    assert!(!n.running);
    assert_eq!(n.queries.len(), 0);

    // A late answer to the abandoned query changes nothing and produces no
    // output.
    let acts = n.handle_event(
        Event::Response { qid, from: 99, closer: Vec::new(), value: None },
        2,
    );
    assert!(acts.is_empty());
    assert!(n.queries.is_empty());
}

#[test]
fn inbound_store_and_find_value_are_served_from_the_store() {
    let mut n = Node::new(1);
    let rec = dht_node::store::Record {
        key: b"k".to_vec(),
        value: b"v".to_vec(),
        publisher: Some(7),
        inserted_at: 0,
    };
    n.handle_event(Event::InboundStore { from: 7, record: rec }, 0);
    let acts = n.handle_event(
        Event::InboundFindValue { reqid: 5, from: 7, key: b"k".to_vec() },
        1,
    );
    assert_eq!(acts.len(), 1);
    match &acts[0] {
        Action::ReplyValue { reqid: 5, to: 7, value: Some(v), .. } => {
            assert_eq!(v, &b"v".to_vec());
        }
        other => panic!("unexpected action: {:?}", std::mem::discriminant(other)),
    }
}

#[test]
fn retrieval_found_value_is_cached_and_reported() {
    let mut n = Node::new(1);
    n.handle_event(Event::PeerSeen(Contact { id: 50, addr: b"a".to_vec() }), 0);
    let acts = n.handle_event(line(b"get bob"), 0);
    assert!(acts.iter().any(|a| matches!(a, Action::SendFindValue { .. })));
    assert_eq!(n.queries.len(), 1);
    let qid = n.queries[0].qid;
    let rec = dht_node::store::Record {
        key: b"bob".to_vec(),
        value: b"5.6.7.8".to_vec(),
        publisher: Some(50),
        inserted_at: 0,
    };
    let acts = n.handle_event(
        Event::Response { qid, from: 50, closer: Vec::new(), value: Some(rec) },
        1,
    );
    let reports = tell(&acts);
    assert!(matches!(
        reports[0],
        Report::FoundRemote { key, value }
            if key == &b"bob".to_vec() && value == &b"5.6.7.8".to_vec()
    ));
    // The retrieved value was cached: the next get answers locally.
    let acts = n.handle_event(line(b"get bob"), 2);
    let reports = tell(&acts);
    assert!(matches!(reports[0], Report::FoundLocal { .. }));
}

#[test]
fn store_query_deadline_reports_under_quorum() {
    let mut n = Node::new(1);
    n.handle_event(Event::PeerSeen(Contact { id: 99, addr: b"a".to_vec() }), 0);
    n.handle_event(line(b"put alice 1.2.3.4"), 0);
    assert_eq!(n.queries.len(), 1);
    // The peer never answers; the deadline elapses.
    let acts = n.handle_event(Event::Tick, QUERY_TIMEOUT_MS);
    let reports = tell(&acts);
    assert!(matches!(reports[0], Report::PublishUnderQuorum { quorum: 1, .. }));
    assert_eq!(n.queries.len(), 0);
}
