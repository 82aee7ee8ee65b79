use cascara::metrics::MetricType;
use cascara::metrics::Metrics;

#[test]
fn metric_types() {
    let mut metrics = Metrics::new();
    for i in 0..10 {
        metrics.insert(MetricType::Hit, &i, 1);
        metrics.insert(MetricType::Miss, &i, 1);
        metrics.insert(MetricType::KeyInsert, &i, 1);
        metrics.insert(MetricType::KeyUpdate, &i, 1);
        metrics.insert(MetricType::KeyEvict, &i, 1);
    }
    assert_eq!(metrics.hits(), 10);
    assert_eq!(metrics.misses(), 10);
    assert_eq!(metrics.keys_inserted(), 10);
    assert_eq!(metrics.keys_updated(), 10);
    assert_eq!(metrics.keys_evicted(), 10);
}

#[test]
fn hits() {
    let mut metrics = Metrics::new();
    for i in 0..10 {
        metrics.insert(MetricType::Hit, &i, 1);
    }
    assert_eq!(metrics.hits(), 10);
}

#[test]
fn misses() {
    let mut metrics = Metrics::new();
    for i in 0..10 {
        metrics.insert(MetricType::Miss, &i, 1);
    }
    assert_eq!(metrics.misses(), 10);
}

#[test]
fn keys_inserted() {
    let mut metrics = Metrics::new();
    for i in 0..10 {
        metrics.insert(MetricType::KeyInsert, &i, 1);
    }
    assert_eq!(metrics.keys_inserted(), 10);
}

#[test]
fn keys_updated() {
    let mut metrics = Metrics::new();
    for i in 0..10 {
        metrics.insert(MetricType::KeyUpdate, &i, 1);
    }
    assert_eq!(metrics.keys_updated(), 10);
}

#[test]
fn keys_evicted() {
    let mut metrics = Metrics::new();
    for i in 0..10 {
        metrics.insert(MetricType::KeyEvict, &i, 1);
    }
    assert_eq!(metrics.keys_evicted(), 10);
}

#[test]
fn get() {
    let mut metrics = Metrics::new();
    metrics.insert(MetricType::Hit, &1, 1);
    metrics.insert(MetricType::Hit, &2, 2);
    metrics.insert(MetricType::Hit, &3, 3);
    assert_eq!(metrics.get(MetricType::Hit), 6);
}

#[test]
fn metrics_clear() {
    let mut metrics = Metrics::new();
    metrics.insert(MetricType::Hit, &1, 1);
    metrics.insert(MetricType::Hit, &2, 2);
    metrics.insert(MetricType::Miss, &1, 1);
    metrics.insert(MetricType::Miss, &2, 2);
    assert_eq!(metrics.hits(), 3);
    assert_eq!(metrics.misses(), 3);
    metrics.clear();
    assert_eq!(metrics.hits(), 0);
    assert_eq!(metrics.misses(), 0);
}

#[test]
fn debug() {
    let mut metrics = Metrics::new();
    metrics.insert(MetricType::Hit, &1, 1);
    metrics.insert(MetricType::Miss, &2, 2);
    metrics.insert(MetricType::KeyEvict, &1, 1);
    metrics.insert(MetricType::KeyUpdate, &2, 2);
    let dbg = metrics.debug_string();
    assert_eq!(
        dbg,
        "Metrics { hits: 1, misses: 2, keys_inserted: 0, keys_updated: 2, keys_evicted: 1 }"
            .to_string()
    );
}

#[test]
fn snapshot_copies_counts() {
    let mut metrics = Metrics::new();
    metrics.insert(MetricType::Hit, &1, 4);
    let copy = metrics.snapshot();
    metrics.insert(MetricType::Hit, &1, 1);
    assert_eq!(copy.hits(), 4);
    assert_eq!(metrics.hits(), 5);
}
