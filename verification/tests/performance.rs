//! Batches, pools and measurements.

use dagger::performance::{serialize_in_background, BatchProcessor, CowCache, ObjectPool, PerformanceMonitor, SerializationStats};
use std::time::Duration;

#[test]
fn test_async_serialization() {
    let mut stats = SerializationStats::new();

    let data = "small data".to_string();
    let background = serialize_in_background(std::mem::size_of::<String>(), 1000);
    assert!(!background);
    let result = serde_json::to_vec(&data).unwrap();
    assert!(!result.is_empty());
    stats.update_stats(result.len(), background);

    assert_eq!(stats.total_operations, 1);
    assert_eq!(stats.sync_operations, 1);
    assert_eq!(stats.total_bytes_processed, 12);
    assert!(serialize_in_background(1001, 1000));
}

#[test]
fn test_batch_processor() {
    let mut batch_processor: BatchProcessor<i32> = BatchProcessor::new(3);

    assert_eq!(batch_processor.add(1), None);
    assert_eq!(batch_processor.add(2), None);
    assert_eq!(batch_processor.add(3), Some(vec![1, 2, 3]));

    assert_eq!(batch_processor.flush(), None);
    assert_eq!(batch_processor.add(4), None);
    assert_eq!(batch_processor.flush(), Some(vec![4]));
}

#[test]
fn test_object_pool() {
    let make = || Vec::<i32>::with_capacity(100);
    let mut pool: ObjectPool<Vec<i32>> = ObjectPool::new(2);

    let obj1 = pool.get(&make);
    let obj2 = pool.get(&make);

    assert_eq!(pool.get_stats().created_count, 2);
    assert_eq!(pool.get_stats().reused_count, 0);

    pool.put_back(obj1);
    pool.put_back(obj2);

    let _obj3 = pool.get(&make);
    let stats = pool.get_stats();
    assert_eq!(stats.created_count, 2);
    assert_eq!(stats.reused_count, 1);
}

#[test]
fn a_full_pool_keeps_no_more() {
    let make = || 7u8;
    let mut pool: ObjectPool<u8> = ObjectPool::new(1);
    pool.put_back(1);
    pool.put_back(2);
    assert_eq!(pool.get_stats().current_size, 1);
    assert_eq!(pool.get(&make), 1);
    assert_eq!(pool.get(&make), 7);
}

#[test]
fn test_cow_cache() {
    let mut cache: CowCache<String> = CowCache::new();

    cache.insert("key1".to_string(), "value1".to_string());

    let value = cache.get_cow("key1").unwrap();
    assert_eq!(*value, "value1");

    let stats = cache.get_cache_stats();
    assert_eq!(stats.hit_count, 1);
    assert_eq!(stats.miss_count, 0);

    let none_value = cache.get_cow("nonexistent");
    assert!(none_value.is_none());

    let stats = cache.get_cache_stats();
    assert_eq!(stats.hit_count, 1);
    assert_eq!(stats.miss_count, 1);

    assert_eq!(cache.get_owned("key1"), Some("value1".to_string()));
    assert_eq!(cache.remove("key1"), Some("value1".to_string()));
    assert_eq!(cache.remove("key1"), None);
    cache.insert("k".to_string(), "v".to_string());
    cache.clear();
    assert!(cache.get_cow("k").is_none());
}

#[test]
fn test_performance_monitor() {
    let mut monitor = PerformanceMonitor::new(100);

    monitor.record_operation("test_op", Duration::from_millis(100));
    monitor.record_operation("test_op", Duration::from_millis(200));
    monitor.record_error("test_op");

    let metrics = monitor.get_operation_metrics("test_op").unwrap();
    assert_eq!(metrics.count, 2);
    assert_eq!(metrics.error_count, 1);
    assert_eq!(metrics.error_count as f64 / metrics.count as f64, 0.5);
}

#[test]
fn timings_of_an_operation() {
    let mut monitor = PerformanceMonitor::new(100);
    for i in (1..=100u64).rev() {
        monitor.record_result("op", Duration::from_millis(i), i % 10 != 0);
    }
    let m = monitor.get_operation_metrics("op").unwrap();
    assert_eq!(m.operation, "op");
    assert_eq!(m.count, 100);
    assert_eq!(m.error_count, 10);
    assert_eq!(m.min_duration, Duration::from_millis(1));
    assert_eq!(m.max_duration, Duration::from_millis(100));
    assert_eq!(m.p50_duration, Duration::from_millis(51));
    assert_eq!(m.p95_duration, Duration::from_millis(96));
    assert_eq!(m.p99_duration, Duration::from_millis(100));
    assert_eq!(m.avg_duration, Duration::from_micros(50_500));
    assert!(monitor.get_operation_metrics("other").is_none());
    assert_eq!(monitor.get_all_metrics().len(), 1);
}

#[test]
fn only_the_last_timings_are_kept() {
    let mut monitor = PerformanceMonitor::new(2);
    for i in 1..=5u64 {
        monitor.record_operation("op", Duration::from_secs(i));
    }
    let m = monitor.get_operation_metrics("op").unwrap();
    assert_eq!(m.min_duration, Duration::from_secs(4));
    assert_eq!(m.max_duration, Duration::from_secs(5));
}
