use rust_concurrency::counters::{Counters, MetricsError};
use rust_concurrency::metrics::{AtomicMetrics, Metrics, RwLockMetrics};

#[test]
fn mutex_metrics_test_metrics_new() {
    let metrics = Metrics::new();
    assert_eq!(metrics.snapshot().unwrap().len(), 0);
}

#[test]
fn mutex_metrics_test_metrics_inc() {
    let metrics = Metrics::new();
    metrics.inc("key1").unwrap();
    metrics.inc("key1").unwrap();
    metrics.inc("key2").unwrap();
}

#[test]
fn mutex_metrics_test_metrics_desc() {
    let metrics = Metrics::new();
    metrics.inc("key1").unwrap();
    metrics.desc("key1").unwrap();
    assert_eq!(metrics.snapshot().unwrap().get("key1"), Some(&0));
}

#[test]
fn mutex_metrics_test_metrics_snapshot() {
    let metrics = Metrics::new();
    metrics.inc("key1").unwrap();
    metrics.inc("key1").unwrap();
    metrics.inc("key2").unwrap();
    let snapshot = metrics.snapshot().unwrap();
    assert_eq!(snapshot.get("key1"), Some(&2));
    assert_eq!(snapshot.get("key2"), Some(&1));
}

#[test]
fn test_metrics_new() {
    let metrics = RwLockMetrics::new();
    assert_eq!(metrics.snapshot().unwrap().len(), 0);
}

#[test]
fn test_metrics_inc() {
    let metrics = RwLockMetrics::new();
    metrics.inc("key1").unwrap();
    metrics.inc("key1").unwrap();
    metrics.inc("key2").unwrap();
}

#[test]
fn test_metrics_desc() {
    let metrics = RwLockMetrics::new();
    metrics.inc("key1").unwrap();
    metrics.desc("key1").unwrap();
    assert_eq!(metrics.snapshot().unwrap().get("key1"), Some(&0));
}

#[test]
fn test_metrics_snapshot() {
    let metrics = RwLockMetrics::new();
    metrics.inc("key1").unwrap();
    metrics.inc("key1").unwrap();
    metrics.inc("key2").unwrap();
    let snapshot = metrics.snapshot().unwrap();
    assert_eq!(snapshot.get("key1"), Some(&2));
    assert_eq!(snapshot.get("key2"), Some(&1));
}

#[test]
fn test_metrics_display() {
    let metrics = RwLockMetrics::new();
    metrics.inc("key1").unwrap();
    metrics.inc("key1").unwrap();
    metrics.inc("key2").unwrap();
    println!("{}", metrics.to_string());
}

#[test]
fn clones_share_their_counters() {
    let metrics = Metrics::new();
    let other = metrics.clone();
    other.inc("page").unwrap();
    metrics.inc("page").unwrap();
    assert_eq!(metrics.snapshot().unwrap().get("page"), Some(&2));
    assert_eq!(other.snapshot().unwrap().len(), 1);
}

#[test]
fn counters_start_at_zero_and_go_negative() {
    let metrics = RwLockMetrics::new();
    metrics.desc("k").unwrap();
    metrics.desc("k").unwrap();
    let snapshot = metrics.snapshot().unwrap();
    assert_eq!(snapshot.get("k"), Some(&-2));
    assert_eq!(snapshot.get("missing"), None);
}

#[test]
fn counter_overflow_is_reported_and_leaves_the_count() {
    let mut c = Counters::new();
    assert_eq!(c.add("k", i64::MAX), Ok(()));
    assert_eq!(c.add("k", 1), Err(MetricsError::Overflow));
    assert_eq!(c.get("k"), Some(&i64::MAX));
    assert_eq!(c.add("j", i64::MIN), Ok(()));
    assert_eq!(c.add("j", -1), Err(MetricsError::Overflow));
    assert_eq!(c.len(), 2);
}

#[test]
fn atomic_metrics_count_known_names_only() {
    let metrics = AtomicMetrics::new(&["a", "b", "a"]);
    metrics.incr("a").unwrap();
    metrics.incr("a").unwrap();
    metrics.desc("b").unwrap();
    metrics.incr("zzz").unwrap();
    let shared = metrics.clone();
    shared.incr("b").unwrap();
    assert_eq!(metrics.to_string(), "a: 2b: 0");
}

#[test]
fn default_metrics_start_empty() {
    let metrics = Metrics::default();
    metrics.inc("a").unwrap();
    assert_eq!(metrics.snapshot().unwrap().get("a"), Some(&1));
}
