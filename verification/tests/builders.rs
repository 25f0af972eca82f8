//! Settings for everything.

use dagger::builders::{Dagger, DaggerBuilder, DaggerConfig, LogLevel, LoggingConfig, NetworkConfig, SecurityConfig};
use dagger::limits::ResourceLimits;
use std::time::Duration;

#[test]
fn test_builder_pattern() {
    let config = DaggerBuilder::new()
        .cache(|cache| cache.max_memory_mb(100).max_entries(1000))
        .limits(|limits| {
            limits.max_concurrent_tasks(50).max_memory_gb(2).task_execution_timeout(Duration::from_secs(300))
        })
        .performance(|perf| {
            perf.async_serialization_threshold_kb(50).database_batch_size(100).enable_object_pooling(true)
        })
        .logging(|log| log.debug().structured(true))
        .network(|net| net.port(8080).max_connections(1000))
        .security(|sec| sec.enable_auth(true).rate_limit_requests_per_minute(1000))
        .database_path("/tmp/dagger.db")
        .build()
        .unwrap();

    assert_eq!(config.cache.max_memory_bytes, 100 * 1024 * 1024);
    assert_eq!(config.limits.max_concurrent_tasks, 50);
    assert_eq!(config.performance.async_serialization_threshold, 50 * 1024);
    assert_eq!(config.network.port, 8080);
    assert!(config.security.enable_auth);
    assert_eq!(config.database_path, Some("/tmp/dagger.db".to_string()));
    assert_eq!(config.limits.max_memory_bytes, 2 * 1024 * 1024 * 1024);
    assert_eq!(config.limits.max_task_execution_time, Duration::from_secs(300));
    assert!(config.logging.structured);
}

#[test]
fn test_preset_configurations() {
    let dev_config = DaggerConfig::development();
    assert_eq!(dev_config.cache.max_memory_bytes, 50 * 1024 * 1024);
    assert!(matches!(dev_config.logging.level, LogLevel::Debug));

    let prod_config = DaggerConfig::production();
    assert_eq!(prod_config.cache.max_memory_bytes, 500 * 1024 * 1024);
    assert!(matches!(prod_config.logging.level, LogLevel::Info));
    assert!(prod_config.security.enable_auth);

    let test_config = DaggerConfig::testing();
    assert_eq!(test_config.cache.max_memory_bytes, 10 * 1024 * 1024);
    assert!(matches!(test_config.logging.level, LogLevel::Trace));
}

#[test]
fn test_dagger_initialization() {
    let config = DaggerBuilder::testing().build().unwrap();
    let dagger = Dagger::new(config).unwrap().initialize().unwrap();

    assert!(dagger.cache().is_some());
    assert!(dagger.resource_tracker().is_some());
    assert!(dagger.task_registry().is_some());
    assert_eq!(dagger.config().cache.max_entries, 100);
}

#[test]
fn test_configuration_validation() {
    let invalid_config = DaggerConfig {
        limits: ResourceLimits { max_memory_bytes: 0, ..Default::default() },
        ..Default::default()
    };

    assert!(invalid_config.validate().is_err());
}

#[test]
fn each_part_is_checked() {
    let text = |c: DaggerConfig| Dagger::new(c).err().unwrap().message();
    let mut config = DaggerConfig::default();
    config.cache.max_entries = 0;
    assert_eq!(text(config), "Configuration error: max_entries cannot be zero");
    assert_eq!(
        LoggingConfig { max_file_size_mb: 0, ..Default::default() }.validate().unwrap_err().message(),
        "Configuration error: max_file_size_mb must be greater than 0"
    );
    assert_eq!(
        LoggingConfig { max_files: 0, ..Default::default() }.validate().unwrap_err().message(),
        "Configuration error: max_files must be greater than 0"
    );
    assert_eq!(
        NetworkConfig { port: 0, ..Default::default() }.validate().unwrap_err().message(),
        "Configuration error: port must be greater than 0"
    );
    assert_eq!(
        NetworkConfig { max_connections: 0, ..Default::default() }.validate().unwrap_err().message(),
        "Configuration error: max_connections must be greater than 0"
    );
    assert_eq!(
        SecurityConfig { rate_limit_requests_per_minute: 0, ..Default::default() }.validate().unwrap_err().message(),
        "Configuration error: rate_limit_requests_per_minute must be greater than 0"
    );
    let tls = SecurityConfig { enable_tls: true, ..Default::default() };
    assert_eq!(tls.validate().unwrap_err().message(), "Configuration error: cert_path required when TLS is enabled");
    let tls = SecurityConfig { cert_path: Some("c".to_string()), ..tls };
    assert_eq!(tls.validate().unwrap_err().message(), "Configuration error: key_path required when TLS is enabled");
    let tls = SecurityConfig { key_path: Some("k".to_string()), ..tls };
    assert!(tls.validate().is_ok());
}

#[test]
fn builder_refuses_what_is_wrong() {
    let builder = DaggerBuilder::new().network(|n| n.port(0));
    assert!(Dagger::from_builder(builder).is_err());
    let unchecked = DaggerBuilder::new().network(|n| n.port(0)).build_unchecked();
    assert_eq!(unchecked.network.port, 0);
    let dagger = Dagger::from_builder(DaggerBuilder::production()).unwrap();
    assert!(dagger.cache().is_none());
}
