use cascara::Cache;
use cascara::OnEvict;

#[test]
fn cache_estimate() {
    let mut cache = Cache::<u64, u64>::new(10).with_metrics();
    assert!(cache.insert(1, 1).is_ok());
    assert!(cache.insert(2, 2).is_ok());
    assert!(cache.insert(2, 2).is_ok());
    assert_eq!(cache.estimate(&1), 1);
    assert_eq!(cache.estimate(&2), 2);
}

#[test]
fn insert() {
    let mut cache = Cache::<u64, u64>::new(2).with_metrics();
    if let Ok(preview) = cache.insert(1, 1) {
        assert!(preview.is_none());
    } else {
        assert!(false, "Item should inserted");
    }
    assert!(cache.contains(&1));
}

#[test]
fn insert_with_ttl() {
    let mut cache = Cache::<u64, u64>::new(2).with_metrics();
    if let Ok(preview) = cache.insert_with_ttl(1, 1, 1) {
        assert!(preview.is_none());
    } else {
        assert!(false, "Item should inserted");
    }
    assert!(cache.contains(&1));
}

#[derive(Default, Debug)]
struct TestEvict {}

impl OnEvict<usize, usize> for TestEvict {
    fn evict(&self, k: &usize, v: &usize) {
        assert_eq!(k, &1);
        assert_eq!(v, &2);
    }
}

#[test]
fn cache_update() {
    let mut cache = Cache::<u64, u64>::new(2).with_metrics();
    assert!(cache.insert(1, 1).is_ok());
    if let Ok(preview) = cache.insert(1, 2) {
        assert!(preview.is_some());
        if let Some(preview) = preview {
            assert_eq!(preview, 1);
        }
        assert_eq!(cache.estimate(&1), 2);
    } else {
        assert!(false, "Item should be in cache");
    }
    assert!(cache.contains(&1));
}

#[test]
fn insert_without_victim() {
    let mut cache = Cache::<u64, u64>::new(2).with_metrics();
    assert!(cache.insert(1, 1).is_ok());
    assert!(cache.insert(2, 2).is_ok());
    assert!(cache.contains(&1));
    assert!(cache.contains(&2));
}

#[test]
fn insert_with_victim() {
    let mut cache = Cache::<usize, usize, TestEvict>::with_on_evict(2, TestEvict::default())
        .with_metrics();
    assert!(cache.insert(1, 2).is_ok());
    assert!(cache.insert(2, 2).is_ok());
    cache.touch(&2);
    cache.touch(&3);
    assert!(cache.insert(3, 3).is_ok());
    assert!(cache.contains(&2));
    assert!(cache.contains(&3));
    assert!(!cache.contains(&1), "Victim should be value 1");
}

#[test]
fn reject_insert() {
    let mut cache = Cache::<u64, u64>::new(2).with_metrics();
    assert!(cache.insert(1, 1).is_ok());
    assert!(cache.insert(2, 2).is_ok());
    cache.touch(&1);
    if let Err(_) = cache.insert(4, 4) {
        assert!(cache.contains(&1));
        assert!(!cache.contains(&2), "Victim should be value 2");
    } else {
        assert!(false, "Item should be reject because of low estimate");
    }
}

#[test]
fn contains() {
    let mut cache = Cache::<u64, u64>::new(10).with_metrics();
    assert!(cache.insert(1, 1).is_ok());
    assert!(cache.contains(&1));
    assert!(!cache.contains(&2));
}

#[test]
fn cache_remove() {
    let mut cache = Cache::<u64, u64>::new(10).with_metrics();
    assert!(cache.insert(1, 3).is_ok());
    let removed = cache.remove(&1);
    assert!(removed.is_some());
    if let Some(removed) = removed {
        assert_eq!(removed, 3);
    }
    assert!(cache.remove(&2).is_none());
    assert!(!cache.contains(&1));
    assert!(!cache.contains(&2));
}

#[test]
fn cache_room_left() {
    let mut cache = Cache::<u64, u64>::new(10).with_metrics();
    assert!(cache.insert(1, 1).is_ok());
    assert_eq!(cache.room_left(), 9);
}

#[test]
fn capacity() {
    let mut cache = Cache::<u64, u64>::new(10).with_metrics();
    assert!(cache.insert(1, 1).is_ok());
    assert_eq!(cache.capacity(), 10);
}

#[test]
fn cache_clear() {
    let mut cache = Cache::<u64, u64>::new(10).with_metrics();
    assert!(cache.insert(1, 1).is_ok());
    assert!(cache.insert(2, 2).is_ok());
    assert!(cache.insert(3, 2).is_ok());
    cache.clear();
    assert!(!cache.contains(&1));
    assert!(!cache.contains(&2));
    assert!(!cache.contains(&3));
    assert_eq!(cache.room_left(), 10);
}

#[test]
fn is_empty() {
    let mut cache = Cache::<u64, u64>::new(10).with_metrics();
    assert!(cache.is_empty());
    assert!(cache.insert(1, 1).is_ok());
    assert!(!cache.is_empty());
    cache.clear();
    assert!(cache.is_empty());
}

#[test]
fn iter() {
    let mut cache = Cache::<u8, u8>::new(10);
    assert!(cache.insert(1, 1).is_ok());
    assert!(cache.insert(2, 2).is_ok());
    assert!(cache.insert(3, 3).is_ok());
    let items = cache.iter();
    assert_eq!(items, vec![(1, 1), (2, 2), (3, 3)])
}
