use kvs::store::KvStore;
use kvs::KvsError;

fn fresh_store() -> KvStore {
    KvStore::open(Vec::new()).expect("an empty log opens")
}

fn reopen(store: &KvStore) -> KvStore {
    KvStore::open(store.log_bytes().clone()).expect("a written log reopens")
}

#[test]
fn set_then_get_returns_the_value() {
    let mut store = fresh_store();
    store.set("k".to_string(), "v".to_string()).expect("set succeeds");
    assert_eq!(store.get("k".to_string()).unwrap(), Some("v".to_string()));
    assert_eq!(store.get("missing".to_string()).unwrap(), None);
}

#[test]
fn later_set_of_same_key_wins() {
    let mut store = fresh_store();
    store.set("k".to_string(), "v1".to_string()).unwrap();
    store.set("k".to_string(), "v2".to_string()).unwrap();
    assert_eq!(store.get("k".to_string()).unwrap(), Some("v2".to_string()));
}

#[test]
fn set_survives_reopen() {
    let mut store = fresh_store();
    store.set("k".to_string(), "v1".to_string()).unwrap();
    store.set("k".to_string(), "v2".to_string()).unwrap();
    let reopened = reopen(&store);
    assert_eq!(reopened.get("k".to_string()).unwrap(), Some("v2".to_string()));
}

#[test]
fn remove_survives_reopen() {
    let mut store = fresh_store();
    store.set("k".to_string(), "v".to_string()).unwrap();
    store.remove("k".to_string()).unwrap();
    let reopened = reopen(&store);
    assert_eq!(reopened.get("k".to_string()).unwrap(), None);
}

#[test]
fn remove_then_get_returns_none() {
    let mut store = fresh_store();
    store.set("k".to_string(), "v".to_string()).unwrap();
    store.remove("k".to_string()).expect("removing a present key succeeds");
    assert_eq!(store.get("k".to_string()).unwrap(), None);
    match store.remove("k".to_string()) {
        Err(KvsError::NonExistantKey) => {}
        other => panic!("expected NonExistantKey, got {:?}", other),
    }
}

#[test]
fn remove_on_absent_key_is_non_existent_key() {
    let mut store = fresh_store();
    match store.remove("never set".to_string()) {
        Err(KvsError::NonExistantKey) => {}
        other => panic!("expected NonExistantKey, got {:?}", other),
    }
}

#[test]
fn open_replays_history_in_order() {
    let mut store = fresh_store();
    store.set("a".to_string(), "1".to_string()).unwrap();
    store.set("b".to_string(), "2".to_string()).unwrap();
    store.set("a".to_string(), "3".to_string()).unwrap();
    store.remove("b".to_string()).unwrap();
    let reopened = reopen(&store);
    assert_eq!(reopened.get("a".to_string()).unwrap(), Some("3".to_string()));
    assert_eq!(reopened.get("b".to_string()).unwrap(), None);
}

#[test]
fn open_rejects_a_corrupt_log() {
    let mut store = fresh_store();
    store.set("a".to_string(), "1".to_string()).unwrap();
    let mut bytes = store.log_bytes().clone();
    bytes.pop();
    match KvStore::open(bytes) {
        Err(KvsError::IOError(_)) => {}
        other => panic!("expected IOError, got {:?}", other.map(|_| ())),
    }
}

#[test]
fn compaction_keeps_every_live_pair_and_drops_stale_bytes() {
    let mut store = fresh_store();
    for i in 0..50 {
        store.set(format!("key{}", i), format!("value{}", i)).unwrap();
    }
    for i in 0..50 {
        store.set(format!("key{}", i), format!("fresh{}", i)).unwrap();
    }
    store.remove("key0".to_string()).unwrap();
    let before = store.log_len();
    store.compact();
    let after = store.log_len();
    assert!(after < before, "compaction reclaims superseded bytes");
    // The compacted log holds exactly one record per live key and nothing else.
    let live: usize = (1..50)
        .map(|i| 17 + format!("key{}", i).len() + format!("fresh{}", i).len())
        .sum();
    assert_eq!(after, live);
    assert_eq!(store.get("key0".to_string()).unwrap(), None);
    for i in 1..50 {
        assert_eq!(store.get(format!("key{}", i)).unwrap(), Some(format!("fresh{}", i)));
    }
    let reopened = reopen(&store);
    assert_eq!(reopened.get("key7".to_string()).unwrap(), Some("fresh7".to_string()));
}

#[test]
fn overwrites_keep_the_log_bounded() {
    let mut store = fresh_store();
    let value = "x".repeat(1024);
    let keys: Vec<String> = (0..2000).map(|i| format!("key{:04}", i)).collect();
    for k in &keys {
        store.set(k.clone(), value.clone()).unwrap();
    }
    for k in &keys {
        store.set(k.clone(), value.clone()).unwrap();
    }
    let live: usize = keys.iter().map(|k| k.len() + value.len() + 17).sum();
    assert!(
        store.log_len() <= 3 * live,
        "log holds {} bytes for {} live bytes",
        store.log_len(),
        live
    );
    for k in &keys {
        assert_eq!(store.get(k.clone()).unwrap(), Some(value.clone()));
    }
}

#[test]
fn repeated_overwrites_of_one_key_reclaim_space() {
    let mut store = fresh_store();
    let value = "x".repeat(100);
    for i in 0..50_000 {
        store.set("hot".to_string(), format!("{}{}", value, i)).unwrap();
    }
    // One live record plus at most the compaction threshold of stale bytes.
    assert!(
        store.log_len() <= 2_000_000,
        "log holds {} bytes for one live key",
        store.log_len()
    );
    assert_eq!(store.get("hot".to_string()).unwrap(), Some(format!("{}{}", value, 49_999)));
}

#[test]
fn disjoint_key_ranges_do_not_disturb_each_other() {
    let mut store = fresh_store();
    for client in 0..16 {
        for i in 0..1000 {
            let key = format!("client{}-key{}", client, i);
            let value = format!("client{}-value{}", client, i);
            store.set(key.clone(), value.clone()).unwrap();
            assert_eq!(store.get(key).unwrap(), Some(value));
        }
    }
    for client in 0..16 {
        for i in (0..1000).step_by(97) {
            let key = format!("client{}-key{}", client, i);
            let expected = format!("client{}-value{}", client, i);
            assert_eq!(store.get(key).unwrap(), Some(expected));
        }
    }
}
