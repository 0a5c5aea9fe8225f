use dht_node::dist::{distance, key_id};
use dht_node::table::{Contact, RoutingTable, SeenResult};
use dht_node::K;

fn contact(id: u64) -> Contact {
    Contact { id, addr: b"addr".to_vec() }
}

#[test]
fn distance_is_xor() {
    assert_eq!(distance(0b1100, 0b1010), 0b0110);
    assert_eq!(distance(5, 5), 0);
    assert_eq!(distance(0, u64::MAX), u64::MAX);
}

#[test]
fn key_id_is_deterministic() {
    let a = key_id(&b"alice".to_vec());
    let b = key_id(&b"alice".to_vec());
    assert_eq!(a, b);
    assert_ne!(key_id(&b"alice".to_vec()), key_id(&b"bob".to_vec()));
    assert_eq!(key_id(&Vec::new()), 0);
}

#[test]
fn closest_is_bounded_and_sorted() {
    let mut t = RoutingTable::new(0);
    for id in [5u64, 9, 3, 1000, 77, 2, 63, 900, 12345] {
        t.record_seen(contact(id));
    }
    let target: u64 = 7;
    let r = t.closest(target, 4);
    assert!(r.len() <= 4);
    assert_eq!(r.len(), 4);
    for w in r.windows(2) {
        assert!(distance(w[0].id, target) <= distance(w[1].id, target));
    }
    // The closest known contact to 7 is 5 (distance 2), then 3 (distance 4).
    assert_eq!(r[0].id, 5);
    assert_eq!(r[1].id, 3);
}

#[test]
fn closest_on_empty_table_is_empty() {
    let t = RoutingTable::new(42);
    assert!(t.closest(7, 10).is_empty());
}

#[test]
fn bucket_never_exceeds_k_and_healthy_bucket_unchanged() {
    // All these peers land in the same bucket relative to local id 0:
    // distances share their highest set bit.
    let mut t = RoutingTable::new(0);
    let base: u64 = 1 << 40;
    for i in 0..(K as u64) {
        match t.record_seen(contact(base + i)) {
            SeenResult::Added => {}
            _ => panic!("expected Added"),
        }
    }
    // The bucket is full: a new peer is not inserted, and the
    // least-recently-seen entry comes back for a ping.
    let newcomer = contact(base + K as u64);
    let lru = match t.record_seen(newcomer) {
        SeenResult::BucketFull(lru) => lru,
        _ => panic!("expected BucketFull"),
    };
    assert_eq!(lru.id, base);
    // The old entry answers the ping: the bucket is full and healthy, the
    // newcomer is discarded, and the bucket holds exactly what it held.
    t.ping_outcome(contact(base + K as u64), true);
    let r = t.closest(base, 2 * K);
    assert_eq!(r.len(), K);
    assert!(r.iter().all(|c| c.id != base + K as u64));
    assert!(r.iter().any(|c| c.id == base));
    // A failed ping evicts the least-recently-seen entry instead.
    let lru2 = match t.record_seen(contact(base + K as u64)) {
        SeenResult::BucketFull(lru) => lru,
        _ => panic!("expected BucketFull"),
    };
    assert_eq!(lru2.id, base);
    t.ping_outcome(contact(base + K as u64), false);
    let r = t.closest(base, 2 * K);
    assert_eq!(r.len(), K);
    assert!(r.iter().any(|c| c.id == base + K as u64));
    assert!(r.iter().all(|c| c.id != base));
}

#[test]
fn record_seen_refreshes_known_peer() {
    let mut t = RoutingTable::new(0);
    t.record_seen(contact(10));
    match t.record_seen(Contact { id: 10, addr: b"elsewhere".to_vec() }) {
        SeenResult::Refreshed => {}
        _ => panic!("expected Refreshed"),
    }
    let r = t.closest(10, 10);
    assert_eq!(r.len(), 1);
    assert_eq!(r[0].addr, b"elsewhere".to_vec());
}

#[test]
fn local_id_is_never_recorded() {
    let mut t = RoutingTable::new(33);
    match t.record_seen(contact(33)) {
        SeenResult::Ignored => {}
        _ => panic!("expected Ignored"),
    }
    assert!(t.closest(33, 10).is_empty());
}
