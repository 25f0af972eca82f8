//! How the system is doing.

use dagger::builders::DaggerBuilder;
use dagger::concurrency::ConcurrentTaskRegistry;
use dagger::dag_flow::tree::Timestamp;
use dagger::double::Double;
use dagger::limits::{ResourceTracker, ResourceUtilization};
use dagger::memory::{Cache, CacheStats};
use dagger::monitoring::{
    calculate_health_status, collect_metrics, generate_recommendations, generate_report, get_history, store_snapshot,
    AlertLevel, HealthStatus, MonitoringConfig, OperationReading, Readings, TaskRegistryStats,
};
use dagger::performance::{OperationMetrics, PerformanceMonitor};
use dagger::string_map::StringMap;
use std::time::Duration;

fn double(x: f64) -> Double {
    Double { bits: x.to_bits() }
}

fn at(secs: i64) -> Timestamp {
    Timestamp { secs, nanos: 0 }
}

fn idle() -> ResourceUtilization {
    ResourceUtilization {
        memory_utilization: double(0.0),
        task_utilization: double(0.0),
        tree_utilization: double(0.0),
        cache_utilization: double(0.0),
        file_utilization: double(0.0),
        network_utilization: double(0.0),
    }
}

fn reading(metrics: OperationMetrics) -> OperationReading {
    let rate = if metrics.count > 0 { metrics.error_count as f64 / metrics.count as f64 } else { 0.0 };
    OperationReading {
        p95_text: format!("{:?}", metrics.p95_duration),
        error_rate: double(rate),
        error_percent: format!("{:.1}", rate * 100.0),
        metrics,
    }
}

fn readings(operations: Vec<OperationReading>) -> Readings {
    let tracker = ResourceTracker::new(DaggerBuilder::testing().build().unwrap().limits).unwrap();
    Readings {
        resource_usage: tracker.get_usage_stats(),
        resource_utilization: idle(),
        memory_percent: "0.0".to_string(),
        cache_stats: CacheStats::new(),
        hit_ratio: double(0.0),
        hit_percent: "0.0".to_string(),
        operations,
        average_error_rate: double(0.0),
        task_stats: TaskRegistryStats {
            total_tasks: 0,
            tasks_by_status: StringMap::new(),
            notifications_sent: 0,
            available_permits: 10,
        },
        failure_rate: double(0.0),
    }
}

#[test]
fn test_monitoring_dashboard() {
    let config = DaggerBuilder::testing().build().unwrap();
    let cache = Cache::new(config.cache).unwrap();
    let registry = ConcurrentTaskRegistry::new(10);
    let mut monitor = PerformanceMonitor::new(100);
    monitor.record_operation("test_op", Duration::from_millis(100));
    monitor.record_operation("test_op", Duration::from_millis(200));
    monitor.record_error("test_op");

    let operations = monitor.get_all_metrics().into_iter().map(reading).collect();
    let mut measured = readings(operations);
    measured.cache_stats = cache.get_stats();
    measured.task_stats.available_permits = registry.get_notification_system().available_permits();
    let status = collect_metrics(measured, at(1));
    assert!(status.readings.operations.iter().any(|o| o.metrics.operation == "test_op"));

    let report = generate_report(Some(status), &Vec::new(), at(0), double(0.0), at(2));
    assert!(!report.recommendations.is_empty());
}

#[test]
fn alerts_say_what_is_wrong() {
    let mut monitor = PerformanceMonitor::new(10);
    monitor.record_operation("slow", Duration::from_secs(6));
    monitor.record_operation("bad", Duration::from_millis(1));
    monitor.record_error("bad");
    let mut measured = readings(monitor.get_all_metrics().into_iter().map(reading).collect());
    measured.resource_utilization.memory_utilization = double(91.25);
    measured.memory_percent = "91.2".to_string();
    measured.cache_stats.hit_count = 10;
    measured.cache_stats.miss_count = 91;
    measured.hit_ratio = double(0.099);
    measured.hit_percent = "9.9".to_string();
    let snapshot = collect_metrics(measured, at(9));
    let told: Vec<(AlertLevel, &str, &str)> =
        snapshot.alerts.iter().map(|a| (a.level, a.component.as_str(), a.message.as_str())).collect();
    assert_eq!(told[0], (AlertLevel::Critical, "memory", "Memory usage critical: 91.2%"));
    assert_eq!(told[1], (AlertLevel::Warning, "cache", "Low cache hit ratio: 9.9%"));
    assert!(told.contains(&(AlertLevel::Warning, "performance", "Slow operation 'slow': p95=6s")));
    assert!(told.contains(&(AlertLevel::Error, "performance", "High error rate for 'bad': 100.0%")));
    assert_eq!(told.len(), 4);
    assert_eq!(snapshot.alerts[0].timestamp, at(9));
}

#[test]
fn a_moderate_memory_load_is_a_warning() {
    let mut measured = readings(Vec::new());
    measured.resource_utilization.memory_utilization = double(80.5);
    measured.memory_percent = "80.5".to_string();
    measured.hit_ratio = double(0.9);
    let snapshot = collect_metrics(measured, at(1));
    assert_eq!(snapshot.alerts.len(), 1);
    assert_eq!(snapshot.alerts[0].message, "Memory usage high: 80.5%");
    assert_eq!(snapshot.alerts[0].level, AlertLevel::Warning);
    assert_eq!(snapshot.health_status.overall_status, HealthStatus::Warning);
}

#[test]
fn the_system_is_as_well_as_its_worst_part() {
    let mut measured = readings(Vec::new());
    measured.hit_ratio = double(0.9);
    assert_eq!(calculate_health_status(&measured).overall_status, HealthStatus::Healthy);
    measured.failure_rate = double(0.15);
    assert_eq!(calculate_health_status(&measured).task_health, HealthStatus::Warning);
    measured.hit_ratio = double(0.29);
    let health = calculate_health_status(&measured);
    assert_eq!(health.cache_health, HealthStatus::Critical);
    assert_eq!(health.overall_status, HealthStatus::Critical);
    assert_eq!(health.memory_health, HealthStatus::Healthy);
    measured.average_error_rate = double(0.21);
    assert_eq!(calculate_health_status(&measured).performance_health, HealthStatus::Critical);
    measured.resource_utilization.task_utilization = double(90.0);
    assert_eq!(calculate_health_status(&measured).cpu_health, HealthStatus::Warning);
}

#[test]
fn recommendations_in_order() {
    let mut monitor = PerformanceMonitor::new(10);
    monitor.record_result("op", Duration::from_secs(11), false);
    let mut measured = readings(monitor.get_all_metrics().into_iter().map(reading).collect());
    measured.resource_utilization.memory_utilization = double(81.0);
    measured.task_stats.available_permits = 0;
    assert_eq!(
        generate_recommendations(&measured),
        vec![
            "Consider increasing memory limits or optimizing memory usage",
            "Low cache hit ratio detected. Consider reviewing cache configuration or access patterns",
            "High error rate for operation 'op'. Review error logs and retry policies",
            "Slow performance for operation 'op'. Consider optimization or timeout adjustment",
            "Task execution at capacity. Consider increasing concurrent task limits",
        ]
    );
}

#[test]
fn history_is_trimmed_and_filtered() {
    let mut history = Vec::new();
    for i in 0..5 {
        store_snapshot(&mut history, collect_metrics(readings(Vec::new()), at(i)), 3);
    }
    assert_eq!(history.len(), 3);
    assert_eq!(history[0].timestamp, at(2));
    assert_eq!(get_history(&history, at(2)), vec![1, 2]);
    history[0].readings.resource_usage.memory_usage = 50;
    history[1].readings.resource_usage.memory_usage = 20;
    history[2].readings.resource_usage.memory_usage = 11;
    let report = generate_report(None, &history, at(2), double(0.25), at(7));
    assert_eq!(report.summary.average_memory_usage, 15);
    assert_eq!(f64::from_bits(report.summary.average_cache_hit_ratio.bits), 0.25);
    assert_eq!(report.current_snapshot.health_status.overall_status, HealthStatus::Unknown);
    assert_eq!(report.current_snapshot.timestamp, at(7));
    assert_eq!(report.summary.alert_count, 0);
}

#[test]
fn usual_monitoring() {
    let config = MonitoringConfig::default();
    assert_eq!(config.update_interval, Duration::from_secs(10));
    assert_eq!(config.max_history_size, 1000);
    assert_eq!(f64::from_bits(config.alert_thresholds.memory_warning_percent.bits), 80.0);
    assert_eq!(f64::from_bits(config.alert_thresholds.cache_hit_ratio_critical.bits), 0.3);
}
