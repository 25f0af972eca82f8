//! The cache that forgets.

use dagger::double::Double;
use dagger::errors::DaggerError;
use dagger::memory::{Cache, CacheConfig, Fullness, Pressure, SerializableData};
use dagger::value::{object, string, Value};
use std::time::Duration;

const MILLI: u128 = 1_000_000;

fn text_of(v: &Value) -> String {
    v.as_str().unwrap().to_string()
}

#[test]
fn test_cache_basic_operations() {
    let config = CacheConfig::default();
    let mut cache = Cache::new(config).unwrap();

    cache.insert_value("node1", "key1", string("value1"), 0).unwrap();
    let value = cache.get_value("node1", "key1", 1);
    assert_eq!(value.map(|v| text_of(&v)), Some("value1".to_string()));

    let stats = cache.get_stats();
    assert_eq!(stats.hit_count, 1);
    assert_eq!(stats.miss_count, 0);
}

#[test]
fn test_cache_memory_limits() {
    let config = CacheConfig { max_memory_bytes: 100, ..Default::default() };
    let mut cache = Cache::new(config).unwrap();

    cache.insert_value("node1", "key1", string("small"), 0).unwrap();

    let large_value = "x".repeat(200);
    let result = cache.insert_value("node1", "key2", string(&large_value), 1);
    assert!(result.is_err());
}

#[test]
fn test_cache_cleanup() {
    let config = CacheConfig {
        ttl: Duration::from_millis(100),
        cleanup_interval: Duration::from_millis(50),
        ..Default::default()
    };
    let mut cache = Cache::new(config).unwrap();

    cache.insert_value("node1", "key1", string("value1"), 0).unwrap();
    let half = Double { bits: 0.5f64.to_bits() };
    let measure = |_: usize, _: usize| Fullness {
        memory_usage: half,
        entry_usage: half,
        memory_target: 0,
        entry_target: 0,
    };
    cache.cleanup_expired(150 * MILLI, &measure);

    let value = cache.get_value("node1", "key1", 250 * MILLI);
    assert!(value.is_none());
}

#[test]
fn test_global_operations() {
    let config = CacheConfig::default();
    let mut cache = Cache::new(config).unwrap();

    cache.append_global_value("dag1", "results", string("result1"), 0);
    cache.append_global_value("dag1", "results", string("result2"), 1);

    let results = cache.get_global_value("dag1", "results", 2).unwrap();
    let texts: Vec<String> = results.as_array().unwrap().iter().map(text_of).collect();
    assert_eq!(texts, vec!["result1".to_string(), "result2".to_string()]);
}

#[test]
fn settings_of_a_cache_are_checked() {
    let double = |x: f64| Double { bits: x.to_bits() };
    let ok = CacheConfig::default();
    assert!(ok.validate().is_ok());
    let cases = vec![
        (CacheConfig { max_memory_bytes: 0, ..ok }, "max_memory_bytes cannot be zero"),
        (CacheConfig { max_entries: 0, ..ok }, "max_entries cannot be zero"),
        (CacheConfig { low_water_mark: double(0.9), ..ok }, "low_water_mark must be less than high_water_mark"),
        (CacheConfig { high_water_mark: double(1.5), ..ok }, "water marks must be between 0.0 and 1.0"),
        (CacheConfig { low_water_mark: double(-0.1), ..ok }, "water marks must be between 0.0 and 1.0"),
    ];
    for (config, text) in cases {
        assert_eq!(config.validate().unwrap_err().message(), format!("Configuration error: {}", text));
        assert!(Cache::new(config).is_err());
    }
}

#[test]
fn too_many_entries_are_refused() {
    let config = CacheConfig { max_entries: 1, ..Default::default() };
    let mut cache = Cache::new(config).unwrap();
    cache.insert_value("a", "k", string("v"), 0).unwrap();
    let refused = cache.insert_value("b", "k", string("v"), 1);
    assert!(matches!(refused, Err(DaggerError::ResourceExhaustion { .. })));
    assert_eq!(cache.len(), 1);
    assert!(!cache.is_empty());
}

#[test]
fn misses_are_counted_and_nodes_can_be_removed() {
    let mut cache = Cache::new(CacheConfig::default()).unwrap();
    assert!(cache.get_value("a", "k", 0).is_none());
    assert_eq!(cache.get_stats().miss_count, 1);
    cache.insert_value("a", "k", string("v"), 1).unwrap();
    let used = cache.get_memory_usage();
    assert_eq!(cache.entry_size("a"), Some(used));
    assert_eq!(cache.remove_node("a"), Some(used));
    assert_eq!(cache.remove_node("a"), None);
    assert_eq!(cache.get_memory_usage(), 0);
    cache.insert_value("a", "k", string("v"), 2).unwrap();
    cache.clear();
    assert!(cache.is_empty());
    assert_eq!(cache.get_memory_usage(), 0);
}

#[test]
fn eviction_drops_the_least_used_first() {
    let mut cache = Cache::new(CacheConfig::default()).unwrap();
    cache.insert_value("old", "k", string("v"), 0).unwrap();
    cache.insert_value("new", "k", string("v"), 1).unwrap();
    cache.get_value("old", "k", 10);
    cache.get_value("old", "k", 11);
    let one = cache.entry_size("new").unwrap();
    let evicted = cache.evict(one as u128);
    assert_eq!(evicted, 1);
    assert_eq!(cache.len(), 1);
}

#[test]
fn pressure_follows_the_water_marks() {
    let cache = Cache::new(CacheConfig::default()).unwrap();
    let double = |x: f64| Double { bits: x.to_bits() };
    assert!(matches!(cache.pressure(double(0.1), double(0.1)), Pressure::Low));
    assert!(!matches!(cache.pressure(double(0.95), double(0.1)), Pressure::Low));
}

#[test]
fn sizes_of_values() {
    let size = |v: Value| SerializableData::new(v).estimate_size();
    assert!(size(Value::Null) > 0);
    assert_eq!(size(string("abcd")) - size(string("ab")), 2);
    let pair = object(vec![("a".to_string(), Value::Null)]);
    assert!(size(pair) > size(Value::Null));
}

#[test]
fn cleanups_are_recorded() {
    let mut cache = Cache::new(CacheConfig::default()).unwrap();
    cache.record_cleanup(3);
    cache.record_cleanup(0);
    let stats = cache.get_stats();
    assert_eq!(stats.eviction_count, 3);
    assert_eq!(stats.cleanup_count, 2);
}

#[test]
fn cleanup_drops_the_old_and_then_the_unused() {
    let double = |x: f64| Double { bits: x.to_bits() };
    let config = CacheConfig { ttl: Duration::from_millis(100), ..Default::default() };
    let mut cache = Cache::new(config).unwrap();
    cache.insert_value("stale", "k", string("v"), 0).unwrap();
    cache.insert_value("older", "k", string("v"), 100 * MILLI).unwrap();
    cache.insert_value("newer", "k", string("v"), 120 * MILLI).unwrap();
    let all = cache.get_memory_usage();
    let room = |total: usize, left: usize| {
        assert_eq!((total, left), (all, 2));
        Fullness { memory_usage: double(0.5), entry_usage: double(0.5), memory_target: 1, entry_target: 1 }
    };
    cache.cleanup_expired(150 * MILLI, &room);
    assert_eq!(cache.len(), 2);
    assert_eq!(cache.get_stats().eviction_count, 1);
    let full = |_: usize, _: usize| Fullness {
        memory_usage: double(0.5),
        entry_usage: double(0.95),
        memory_target: 1_000_000,
        entry_target: 1,
    };
    cache.cleanup_expired(150 * MILLI, &full);
    assert_eq!(cache.len(), 1);
    assert!(cache.get_value("newer", "k", 150 * MILLI).is_some());
    let stats = cache.get_stats();
    assert_eq!((stats.eviction_count, stats.cleanup_count, stats.total_entries), (2, 2, 1));
}
