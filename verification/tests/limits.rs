//! Limits and what is counted against them.

use dagger::double::Double;
use dagger::errors::DaggerError;
use dagger::limits::{ResourceLimits, ResourceTracker, ResourceUtilization};
use std::time::Duration;

const MILLI: u128 = 1_000_000;

fn utilization(tracker: &ResourceTracker) -> ResourceUtilization {
    let usage = tracker.get_usage_stats();
    let limits = tracker.get_limits();
    let share = |used: f64, most: f64| Double { bits: (used / most * 100.0).to_bits() };
    ResourceUtilization {
        memory_utilization: share(usage.memory_usage as f64, limits.max_memory_bytes as f64),
        task_utilization: share(usage.concurrent_tasks as f64, limits.max_concurrent_tasks as f64),
        tree_utilization: share(usage.execution_tree_nodes as f64, limits.max_execution_tree_nodes as f64),
        cache_utilization: share(usage.cache_entries as f64, limits.max_cache_entries as f64),
        file_utilization: share(usage.file_handles as f64, limits.max_file_handles as f64),
        network_utilization: share(usage.network_connections as f64, limits.max_network_connections as f64),
    }
}

#[test]
fn test_resource_limits_validation() {
    let mut limits = ResourceLimits::default();
    assert!(limits.validate().is_ok());

    limits.max_memory_bytes = 0;
    assert!(limits.validate().is_err());
}

#[test]
fn test_memory_allocation() {
    let limits = ResourceLimits::conservative();
    let mut tracker = ResourceTracker::new(limits).unwrap();

    let allocation = tracker.allocate_memory(1000).unwrap();
    assert_eq!(tracker.get_usage_stats().memory_usage, 1000);

    let most = tracker.get_limits().max_memory_bytes;
    let result = tracker.allocate_memory(most);
    assert!(result.is_err());

    tracker.deallocate_memory(allocation);
    assert_eq!(tracker.get_usage_stats().memory_usage, 0);
}

#[test]
fn test_task_execution() {
    let limits = ResourceLimits::conservative();
    let mut tracker = ResourceTracker::new(limits).unwrap();

    let task = tracker.start_task(0).unwrap();
    assert_eq!(tracker.get_usage_stats().concurrent_tasks, 1);

    tracker.end_task(task, MILLI).unwrap();
    assert_eq!(tracker.get_usage_stats().concurrent_tasks, 0);
}

#[test]
fn test_resource_utilization() {
    let limits = ResourceLimits::conservative();
    let mut tracker = ResourceTracker::new(limits).unwrap();

    let _allocation = tracker.allocate_memory(limits.max_memory_bytes / 2).unwrap();
    let used = utilization(&tracker);
    assert!((f64::from_bits(used.memory_utilization.bits) - 50.0).abs() < 1.0);

    let _allocation2 = tracker.allocate_memory((limits.max_memory_bytes * 35) / 100).unwrap();
    assert!(utilization(&tracker).is_approaching_limits());
}

#[test]
fn test_execution_time_limits() {
    let mut limits = ResourceLimits::default();
    limits.max_total_execution_time = Duration::from_millis(100);

    let mut tracker = ResourceTracker::new(limits).unwrap();
    tracker.start_execution(0);

    let result = tracker.check_execution_time(150 * MILLI);
    assert!(result.is_err());
    assert!(tracker.check_execution_time(100 * MILLI).is_ok());
    assert_eq!(
        tracker.check_execution_time(150 * MILLI).unwrap_err().message(),
        "Operation timed out: total_execution (timeout: 150ms)"
    );
}

#[test]
fn test_file_handles() {
    let limits = ResourceLimits::conservative();
    let mut tracker = ResourceTracker::new(limits).unwrap();

    let handle = tracker.open_file_handle().unwrap();
    assert_eq!(tracker.get_usage_stats().file_handles, 1);

    tracker.close_file_handle(handle);
    assert_eq!(tracker.get_usage_stats().file_handles, 0);
}

#[test]
fn test_validation_functions() {
    let limits = ResourceLimits::conservative();
    let mut tracker = ResourceTracker::new(limits).unwrap();

    assert!(tracker.validate_message_size(1000).is_ok());
    assert!(tracker.validate_message_size(limits.max_message_size_bytes + 1).is_err());

    assert!(tracker.validate_dependency_depth(5).is_ok());
    assert!(tracker.validate_dependency_depth(limits.max_dependency_depth + 1).is_err());

    assert!(tracker.validate_retry_count(2).is_ok());
    assert!(tracker.validate_retry_count(limits.max_task_retries + 1).is_err());
}

#[test]
fn each_limit_is_enforced_and_counted() {
    let mut limits = ResourceLimits::conservative();
    limits.max_concurrent_tasks = 1;
    limits.max_execution_tree_nodes = 1;
    limits.max_cache_entries = 1;
    limits.max_file_handles = 1;
    limits.max_network_connections = 1;
    let mut tracker = ResourceTracker::new(limits).unwrap();

    let task = tracker.start_task(0).unwrap();
    assert!(tracker.start_task(0).is_err());
    tracker.add_execution_tree_node().unwrap();
    assert!(tracker.add_execution_tree_node().is_err());
    tracker.add_cache_entry().unwrap();
    assert!(tracker.add_cache_entry().is_err());
    let file = tracker.open_file_handle().unwrap();
    assert!(tracker.open_file_handle().is_err());
    let connection = tracker.open_network_connection().unwrap();
    let refused = tracker.open_network_connection();
    assert!(matches!(refused, Err(DaggerError::ResourceExhaustion { current: 2, limit: 1, .. })));
    assert_eq!(tracker.get_usage_stats().total_limit_violations, 5);

    tracker.end_task(task, 1).unwrap();
    tracker.remove_execution_tree_node();
    tracker.remove_cache_entry();
    tracker.close_file_handle(file);
    tracker.close_network_connection(connection);
    let usage = tracker.get_usage_stats();
    assert_eq!(usage.concurrent_tasks, 0);
    assert_eq!(usage.execution_tree_nodes, 0);
    assert_eq!(usage.cache_entries, 0);
    assert_eq!(usage.file_handles, 0);
    assert_eq!(usage.network_connections, 0);
    assert_eq!(usage.total_tasks_executed, 1);
    assert_eq!(usage.peak_concurrent_tasks, 1);
}

#[test]
fn removing_below_zero_stays_at_zero() {
    let mut tracker = ResourceTracker::new(ResourceLimits::default()).unwrap();
    tracker.remove_execution_tree_node();
    tracker.remove_cache_entry();
    assert_eq!(tracker.get_usage_stats().execution_tree_nodes, 0);
    assert_eq!(tracker.get_usage_stats().cache_entries, 0);
}

#[test]
fn a_task_that_took_too_long_is_reported_at_its_end() {
    let mut tracker = ResourceTracker::new(ResourceLimits::conservative()).unwrap();
    let task = tracker.start_task(0).unwrap();
    let late = tracker.end_task(task, 31_000 * MILLI);
    assert!(matches!(late, Err(DaggerError::Timeout { .. })));
    assert_eq!(tracker.get_usage_stats().concurrent_tasks, 0);
}

#[test]
fn each_limit_has_to_be_positive() {
    type Change = fn(&mut ResourceLimits);
    let changes: Vec<(Change, &str)> = vec![
        (|l| l.max_memory_bytes = 0, "max_memory_bytes must be greater than 0"),
        (|l| l.max_concurrent_tasks = 0, "max_concurrent_tasks must be greater than 0"),
        (|l| l.max_execution_tree_nodes = 0, "max_execution_tree_nodes must be greater than 0"),
    ];
    for (change, text) in changes {
        let mut limits = ResourceLimits::default();
        change(&mut limits);
        assert_eq!(limits.validate().unwrap_err().message(), format!("Configuration error: {}", text));
    }
    assert!(ResourceLimits::aggressive().validate().is_ok());
    assert!(ResourceLimits::conservative().validate().is_ok());
}

#[test]
fn utilization_is_the_highest_share() {
    let share = |x: f64| Double { bits: x.to_bits() };
    let used = ResourceUtilization {
        memory_utilization: share(10.0),
        task_utilization: share(81.5),
        tree_utilization: share(3.0),
        cache_utilization: share(0.0),
        file_utilization: share(42.0),
        network_utilization: share(80.0),
    };
    assert_eq!(f64::from_bits(used.max_utilization().bits), 81.5);
    assert!(used.is_over_threshold(share(81.0)));
    assert!(!used.is_over_threshold(share(81.5)));
    assert!(used.is_approaching_limits());
}
