use cascara::ttl::Expiration;
use cascara::ttl::ExpirationMap;

#[test]
fn insert_and_remove() {
    let mut expiration_map = ExpirationMap::new();
    let expiration = expiration_map.insert(0, 5).unwrap();
    assert!(!expiration_map.remove(&1, expiration));
    assert!(expiration_map.remove(&0, expiration));
}

#[test]
fn ttl_clear() {
    let mut expiration_map = ExpirationMap::new();
    expiration_map.insert(0, 1);
    expiration_map.insert(1, 1);
    expiration_map.insert(2, 3);
    expiration_map.clear();
    assert!(expiration_map.is_empty());
}

#[test]
fn do_not_register_zero_duration() {
    let mut expiration_map = ExpirationMap::new();
    assert!(expiration_map.insert(0, 0).is_none());
}

#[test]
fn ttl_remove() {
    let mut expiration_map = ExpirationMap::new();
    let expiration_time = expiration_map.insert(0, 1);
    assert!(expiration_time.is_some());
    if let Some(expiration_time) = expiration_time {
        assert!(expiration_map.remove(&0, expiration_time));
        assert!(!expiration_map.remove(&1, expiration_time));
    }
}

#[test]
fn remove_not_existing() {
    let mut expiration_map = ExpirationMap::new();
    let expiration_time: u64 = 10;
    assert!(!expiration_map.remove(&1, expiration_time));
}

#[test]
fn ttl_update() {
    let mut expiration_map = ExpirationMap::new();
    let expiration_time = expiration_map.insert(0, 1);
    assert!(expiration_time.is_some());
    if let Some(expiration_time) = expiration_time {
        let new_expiration_time = expiration_map.update(0, expiration_time, 1);
        assert!(new_expiration_time.is_some());
        if let Some(new_expiration_time) = new_expiration_time {
            assert!(expiration_map.remove(&0, new_expiration_time));
        }
    }
}

#[test]
fn ttl_cleanup_drains_due_buckets() {
    let mut expiration_map = ExpirationMap::new();
    assert_eq!(expiration_map.insert_at(0, 5, 100), Some(105));
    assert_eq!(expiration_map.insert_at(1, 3, 100), Some(103));
    assert_eq!(expiration_map.insert_at(2, 30, 100), Some(130));
    let mut drained = expiration_map.cleanup(102);
    assert!(drained.is_empty());
    drained = expiration_map.cleanup(105);
    drained.sort();
    assert_eq!(drained, vec![0, 1]);
    drained = expiration_map.cleanup(130);
    assert_eq!(drained, vec![2]);
    assert!(expiration_map.is_empty());
}

#[test]
fn ttl_instant_saturates() {
    let mut expiration_map = ExpirationMap::new();
    assert_eq!(expiration_map.insert_at(7, u64::MAX, 100), Some(u64::MAX));
    assert!(expiration_map.remove(&7, u64::MAX));
}
