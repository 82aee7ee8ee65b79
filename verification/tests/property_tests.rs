use cascara::Cache;
use cascara::metrics::MetricType;

#[test]
fn resident_count_never_exceeds_capacity() {
    let mut cache = Cache::<u64, u64>::new(3);
    for k in 0..3u64 {
        assert!(cache.insert(k, k).is_ok());
        assert!(cache.len() <= 3);
    }
    assert_eq!(cache.len(), 3);
    // the fourth distinct insert either evicts exactly one entry or is
    // rejected (which still evicts the sampled victim) — never both
    // admitted-without-eviction and over-capacity
    match cache.insert(3, 3) {
        Ok(_) => assert_eq!(cache.len(), 3),
        Err(_) => assert_eq!(cache.len(), 2),
    }
    assert!(cache.len() <= 3);
}

#[test]
fn popular_key_always_admitted_when_full() {
    let mut cache = Cache::<u64, u64>::new(1);
    assert!(cache.insert(1, 1).is_ok());
    // raise key 2 strictly above the only possible victim
    cache.touch(&2);
    cache.touch(&2);
    cache.touch(&2);
    assert!(cache.estimate(&2) > cache.estimate(&1));
    assert!(cache.insert(2, 2).is_ok());
    assert!(cache.contains(&2));
    assert!(!cache.contains(&1));
}

#[test]
fn rejected_insert_still_evicts_victim() {
    let mut cache = Cache::<u64, u64>::new(1);
    assert!(cache.insert(1, 1).is_ok());
    cache.touch(&1);
    cache.touch(&1);
    // key 2 was never seen: its estimate is below the victim's, so the
    // insertion is rejected — yet the sampled victim is still evicted
    assert!(cache.insert(2, 2).is_err());
    assert!(!cache.contains(&1));
    assert!(!cache.contains(&2));
    assert_eq!(cache.len(), 0);
}

#[test]
fn insert_get_round_trip() {
    let mut cache = Cache::<u64, u64>::new(4);
    assert_eq!(cache.insert(7, 70), Ok(None));
    assert_eq!(cache.get(&7), Some(70));
    assert_eq!(cache.insert(7, 71), Ok(Some(70)));
    assert_eq!(cache.get(&7), Some(71));
    assert_eq!(cache.get(&8), None);
}

#[test]
fn zero_ttl_means_no_expiry() {
    let mut cache = Cache::<u64, u64>::new(4);
    assert!(cache.insert_with_ttl(1, 1, 0).is_ok());
    assert!(cache.contains(&1));
    // a positive time to live leaves the entry visible immediately
    assert!(cache.insert_with_ttl(2, 2, 600).is_ok());
    assert!(cache.contains(&2));
}

#[test]
fn clear_resets_everything() {
    let mut cache = Cache::<u64, u64>::new(5).with_metrics();
    assert!(cache.insert(1, 1).is_ok());
    assert!(cache.insert(2, 2).is_ok());
    assert_eq!(cache.get(&1), Some(1));
    assert_eq!(cache.get(&9), None);
    cache.clear();
    assert_eq!(cache.len(), 0);
    assert_eq!(cache.room_left(), 5);
    assert!(!cache.contains(&1));
    assert!(!cache.contains(&2));
    let metrics = cache.metrics().unwrap();
    assert_eq!(metrics.hits(), 0);
    assert_eq!(metrics.misses(), 0);
    assert_eq!(metrics.keys_inserted(), 0);
    assert_eq!(metrics.keys_updated(), 0);
    assert_eq!(metrics.keys_evicted(), 0);
    assert_eq!(metrics.get(MetricType::Hit), 0);
}

#[test]
fn lookups_raise_popularity_and_decide_eviction() {
    // capacity 2; a small window so repeated lookups age key 1 out of the
    // doorkeeper while key 2 stays popular
    let mut cache = Cache::<u64, u64>::with_window_size(2, 4);
    assert_eq!(cache.insert(1, 1), Ok(None));
    assert_eq!(cache.insert(2, 2), Ok(None));
    assert_eq!(cache.get(&2), Some(2));
    assert_eq!(cache.get(&2), Some(2));
    assert_eq!(cache.get(&2), Some(2));
    assert_eq!(cache.get(&2), Some(2));
    assert!(cache.estimate(&2) > cache.estimate(&1));
    assert_eq!(cache.insert(3, 3), Ok(None));
    assert!(!cache.contains(&1));
    assert!(cache.contains(&2));
    assert!(cache.contains(&3));
}

#[test]
fn metrics_track_hits_and_misses() {
    let mut cache = Cache::<u64, u64>::new(4).with_metrics();
    assert!(cache.insert(1, 1).is_ok());
    assert_eq!(cache.get(&1), Some(1));
    assert_eq!(cache.get(&1), Some(1));
    assert_eq!(cache.get(&2), None);
    let metrics = cache.metrics().unwrap();
    assert_eq!(metrics.hits(), 2);
    assert_eq!(metrics.misses(), 1);
    assert_eq!(metrics.keys_inserted(), 1);
}

#[test]
fn remove_keeps_popularity() {
    let mut cache = Cache::<u64, u64>::new(4);
    assert!(cache.insert(1, 1).is_ok());
    cache.touch(&1);
    let before = cache.estimate(&1);
    assert_eq!(cache.remove(&1), Some(1));
    assert_eq!(cache.estimate(&1), before);
}

#[test]
fn sampling_stays_within_residents() {
    // the victim reported by a full-store insertion is always a resident:
    // with every resident known, a rejection can only evict one of them
    let mut cache = Cache::<u64, u64>::new(2);
    assert!(cache.insert(10, 10).is_ok());
    assert!(cache.insert(20, 20).is_ok());
    cache.touch(&10);
    cache.touch(&20);
    let r = cache.insert(30, 30);
    let evicted_10 = !cache.contains(&10);
    let evicted_20 = !cache.contains(&20);
    match r {
        Ok(_) => {
            assert!(cache.contains(&30));
            assert!(evicted_10 != evicted_20);
        }
        Err(_) => {
            assert!(!cache.contains(&30));
            assert!(evicted_10 != evicted_20);
        }
    }
}

#[test]
fn update_value_replaces_in_place() {
    let mut cache = Cache::<u64, u64>::new(4);
    assert!(cache.insert(1, 1).is_ok());
    let before = cache.len();
    assert_eq!(cache.update_value(&1, 5), Some(1));
    assert_eq!(cache.get(&1), Some(5));
    assert_eq!(cache.update_value(&2, 9), None);
    assert_eq!(cache.len(), before);
}
