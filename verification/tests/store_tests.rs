use cascara::cache::OnEvict;
use cascara::cache::VoidEvict;
use cascara::store::Item;
use cascara::store::SampleItem;
use cascara::store::Storage;
use cascara::store::Store;
use cascara::tiny_lfu::TinyLFU;
use cascara::tiny_lfu::TinyLFUCache;
use std::cmp::Ordering;
use std::collections::hash_map::RandomState;
use std::hash::BuildHasher;
use std::hash::Hash;
use std::hash::Hasher;

struct Evict {}

impl<K, V> OnEvict<K, V> for Evict {
    fn evict(&self, _k: &K, _v: &V) {}
}

#[test]
fn sample_partial_cmp() {
    let item_1 = SampleItem::new(1, 2);
    let item_2 = SampleItem::new(2, 1);
    let item_3 = SampleItem::new(1, 2);
    assert_eq!(item_1.partial_cmp(&item_2), Some(Ordering::Greater));
    assert_eq!(item_2.partial_cmp(&item_1), Some(Ordering::Less));
    assert_eq!(item_1.partial_cmp(&item_3), Some(Ordering::Equal));
}

#[test]
fn sample_cmp() {
    let item_1 = SampleItem::new(1, 2);
    let item_2 = SampleItem::new(2, 1);
    let item_3 = SampleItem::new(1, 2);
    assert_eq!(item_1.cmp(&item_2), Ordering::Greater);
    assert_eq!(item_2.cmp(&item_1), Ordering::Less);
    assert_eq!(item_1.cmp(&item_3), Ordering::Equal);
}

#[test]
fn sample_eq() {
    let item_1 = SampleItem::new(1, 2);
    let item_2 = SampleItem::new(2, 1);
    let item_3 = SampleItem::new(1, 2);
    assert_eq!(item_1.eq(&item_2), false);
    assert_eq!(item_2.eq(&item_1), false);
    assert_eq!(item_1.eq(&item_3), true);
}

#[test]
fn hash() {
    let item_1 = SampleItem::new(1, 2);
    let mut state = RandomState::new().build_hasher();
    item_1.hash(&mut state);
    let _hash = state.finish();
    assert!(true);
}

#[test]
fn deref() {
    let item_1 = Item::new(1, 2);
    let v = item_1.deref();
    assert_eq!(v, &2);
}

#[test]
fn get_not_expired_items() {
    let mut store = Storage::with_capacity(10);
    assert!(store.insert_with_ttl(1, Item::new(1, 2), 10).is_none());
    assert!(store.get(&1).is_some());
}

#[test]
fn set_and_get() {
    let mut store = Storage::with_capacity(10);
    assert!(store.insert(1, Item::new(1, 2)).is_none());
    let item = store.get(&1);
    assert!(item.is_some());
    if let Some(item) = item {
        assert!(item.k.eq(&1));
        assert!(item.v.eq(&2));
    }
    assert!(store.insert(1, Item::new(1, 3)).is_some());
    let item = store.get(&1);
    assert!(item.is_some());
    if let Some(item) = item {
        assert!(item.k.eq(&1));
        assert!(item.v.eq(&3));
    }
    assert!(store.get(&2).is_none());
    assert!(store.insert(2, Item::new(2, 4)).is_none());
    let item = store.get(&2);
    assert!(item.is_some());
    if let Some(item) = item {
        assert!(item.k.eq(&2));
        assert!(item.v.eq(&4));
    }
}

#[test]
fn store_remove() {
    let mut store = Storage::with_capacity(10);
    assert!(store.insert(1, Item::new(1, 2)).is_none());
    let item = store.remove(&1);
    assert!(item.is_some());
    if let Some(item) = item {
        assert_eq!(item.k, 1);
        assert_eq!(item.v, 2);
    }
    assert!(store.remove(&1).is_none());
}

#[test]
fn store_clear() {
    let mut store = Storage::with_capacity(10);
    for i in 1..1000 {
        assert!(store.insert(i, Item::new(i, i)).is_none())
    }
    store.clear();
    for i in 1..1000 {
        assert!(store.get(&i).is_none())
    }
}

#[test]
fn store_room_left() {
    let mut store = Storage::with_capacity(10);
    for i in 0..3 {
        store.insert(i, Item::new(i, i));
    }
    assert_eq!(store.room_left(), 7);
}

#[test]
fn some_sample() {
    let mut store = Storage::with_capacity(10);
    for i in 0..10 {
        store.insert(i, Item::new(i, i));
    }
    let estimator = TinyLFUCache::new(16);
    let sample = store.sample(&estimator);
    assert!(sample.is_some());
}

#[test]
fn no_sample() {
    let store = Storage::<u64, u64>::with_capacity(10);
    let estimator = TinyLFUCache::new(16);
    let sample = store.sample(&estimator);
    assert!(sample.is_none());
}

#[test]
fn min_sample() {
    let mut store = Storage::<u64, u64>::with_capacity(10);
    for i in 0..2 {
        store.insert(i, Item::new(i, i));
    }
    let mut estimator = TinyLFUCache::new(16);
    estimator.increment(&0);
    let sample = store.sample(&estimator);
    assert!(sample.is_some());
    if let Some(sample) = sample {
        assert_eq!(sample.key, 1);
    }
}

#[test]
fn expired_entry_is_absent_for_lookup() {
    let mut store = Storage::<u64, u64>::with_capacity(10);
    assert!(store.insert_with_ttl_at(1, Item::new(1, 2), 1, 100).is_none());
    assert!(store.get_at(&1, 100).is_some());
    assert!(store.get_at(&1, 101).is_some());
    assert!(store.get_at(&1, 102).is_none());
}

#[test]
fn cleanup_removes_due_entries() {
    let mut store = Storage::<u64, u64>::with_capacity(10);
    store.insert(0, Item::new(0, 0));
    store.insert(1, Item::new(1, 1));
    assert!(store.insert_with_ttl_at(2, Item::new(2, 2), 1, 100).is_none());
    assert!(store.insert_with_ttl_at(3, Item::new(3, 3), 1, 100).is_none());
    let on_evict: Option<Evict> = Some(Evict {});
    store.cleanup_at(101, &on_evict);
    assert!(store.contains(&0));
    assert!(store.contains(&1));
    assert!(!store.contains(&2));
    assert!(!store.contains(&3));
    assert_eq!(store.len(), 2);
}

#[test]
fn zero_ttl_entry_outlives_any_instant() {
    let mut store = Storage::<u64, u64>::with_capacity(4);
    assert!(store.insert_with_ttl_at(1, Item::new(1, 9), 0, 100).is_none());
    assert!(store.get_at(&1, u64::MAX).is_some());
    let on_evict: Option<VoidEvict<u64, u64>> = None;
    store.cleanup_at(u64::MAX, &on_evict);
    assert!(store.contains(&1));
}

#[test]
fn reinsert_replaces_expiry() {
    let mut store = Storage::<u64, u64>::with_capacity(4);
    assert!(store.insert_with_ttl_at(1, Item::new(1, 1), 2, 100).is_none());
    assert!(store.insert_with_ttl_at(1, Item::new(1, 1), 3, 101).is_some());
    let on_evict: Option<VoidEvict<u64, u64>> = None;
    store.cleanup_at(103, &on_evict);
    assert!(store.get_at(&1, 103).is_some());
    store.cleanup_at(105, &on_evict);
    assert!(store.get_at(&1, 105).is_none());
    assert_eq!(store.len(), 0);
}

#[test]
fn replace_value_keeps_expiry() {
    let mut store = Storage::<u64, u64>::with_capacity(4);
    assert!(store.insert_with_ttl_at(1, Item::new(1, 1), 5, 100).is_none());
    assert_eq!(store.replace_value_at(&1, 103, 7), Some(1));
    let item = store.get_at(&1, 104);
    assert!(item.is_some());
    assert_eq!(item.unwrap().v, 7);
    assert!(store.get_at(&1, 106).is_none());
    assert_eq!(store.replace_value_at(&1, 106, 8), None);
}

#[test]
fn min_sample_of_picks_lowest_estimate_then_lowest_key() {
    let draws = vec![
        SampleItem::new(5, 2),
        SampleItem::new(4, 1),
        SampleItem::new(3, 1),
        SampleItem::new(9, 7),
    ];
    let r = cascara::store::min_sample_of(&draws);
    assert_eq!(r.key, 3);
    assert_eq!(r.estimate, 1);
    let single = vec![SampleItem::new(8, 6)];
    let r = cascara::store::min_sample_of(&single);
    assert_eq!(r.key, 8);
    assert_eq!(r.estimate, 6);
}
