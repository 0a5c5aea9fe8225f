use dht_node::store::{Record, RecordStore};

fn rec(key: &[u8], value: &[u8], at: u64) -> Record {
    Record { key: key.to_vec(), value: value.to_vec(), publisher: None, inserted_at: at }
}

#[test]
fn put_then_get_returns_value() {
    let mut s = RecordStore::new();
    s.put(rec(b"alice", b"1.2.3.4", 7));
    let got = s.get(&b"alice".to_vec()).expect("present");
    assert_eq!(got.value, b"1.2.3.4".to_vec());
    assert_eq!(got.key, b"alice".to_vec());
    assert_eq!(got.inserted_at, 7);
}

#[test]
fn get_miss_is_none() {
    let s = RecordStore::new();
    assert!(s.get(&b"absent".to_vec()).is_none());
}

#[test]
fn last_write_wins() {
    let mut s = RecordStore::new();
    s.put(rec(b"k", b"v1", 1));
    s.put(rec(b"k", b"v2", 2));
    let got = s.get(&b"k".to_vec()).expect("present");
    assert_eq!(got.value, b"v2".to_vec());
    assert_eq!(got.inserted_at, 2);
}

#[test]
fn distinct_keys_do_not_collide() {
    let mut s = RecordStore::new();
    s.put(rec(b"a", b"1", 0));
    s.put(rec(b"b", b"2", 0));
    assert_eq!(s.get(&b"a".to_vec()).unwrap().value, b"1".to_vec());
    assert_eq!(s.get(&b"b".to_vec()).unwrap().value, b"2".to_vec());
}
