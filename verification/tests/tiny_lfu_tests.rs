use cascara::tiny_lfu::TinyLFU;
use cascara::tiny_lfu::TinyLFUCache;

#[test]
fn increment() {
    let mut tiny = TinyLFUCache::new(4);
    tiny.increment(&1);
    tiny.increment(&1);
    tiny.increment(&1);
    tiny.increment(&1);
    // the doorkeeper has seen key 1 and its count is 3
    assert_eq!(tiny.estimate(&1), 4);
    tiny.increment(&1);
    // the full window was aged first: the count halved to 1, then the
    // cleared doorkeeper saw key 1 again
    assert_eq!(tiny.estimate(&1), 2);
    tiny.increment(&2);
    tiny.increment(&2);
    tiny.increment(&2);
    tiny.increment(&2);
    // two windows later, key 1 is zeroed and forgotten
    assert_eq!(tiny.estimate(&1), 0);
}

#[test]
fn tiny_lfu_estimate() {
    let mut tiny = TinyLFUCache::new(8);
    tiny.increment(&1);
    tiny.increment(&1);
    tiny.increment(&1);
    assert_eq!(tiny.estimate(&1), 3);
    assert_eq!(tiny.estimate(&2), 0);
}

#[test]
fn tiny_lfu_clear() {
    let mut tiny = TinyLFUCache::new(16);
    tiny.increment(&1);
    tiny.increment(&2);
    tiny.increment(&2);
    tiny.increment(&2);
    tiny.clear();
    assert_eq!(tiny.estimate(&1), 0);
    assert_eq!(tiny.estimate(&2), 0);
}

#[test]
fn reset_halves_recent_and_zeroes_stale() {
    let mut tiny = TinyLFUCache::new(8);
    for _ in 0..5 {
        tiny.increment(&1);
    }
    // doorkeeper plus a count of 4
    assert_eq!(tiny.estimate(&1), 5);
    tiny.reset();
    // touched in the most recent window: halved (4 / 2), doorkeeper cleared
    assert_eq!(tiny.estimate(&1), 2);
    tiny.reset();
    // last touched two windows prior: zeroed
    assert_eq!(tiny.estimate(&1), 0);
}

#[test]
fn estimate_is_never_negative() {
    let mut tiny = TinyLFUCache::new(4);
    assert!(tiny.estimate(&9) >= 0);
    for i in 0..20u64 {
        tiny.increment(&(i % 3));
        assert!(tiny.estimate(&(i % 3)) >= 0);
        assert!(tiny.estimate(&99) >= 0);
    }
    tiny.reset();
    assert!(tiny.estimate(&0) >= 0);
    assert!(tiny.estimate(&1) >= 0);
    assert!(tiny.estimate(&2) >= 0);
}
