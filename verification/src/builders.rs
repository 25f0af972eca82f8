//! Settings for everything, and how they are put together.

use crate::concurrency::ConcurrentTaskRegistry;
use crate::double::{Double, EIGHTY, FIFTY, HUNDRED, NINE_TENTHS, ONE, SEVEN_TENTHS, ZERO};
use crate::duration::nanos;
use crate::errors::DaggerError;
use crate::limits::{holds_limits, ResourceLimits, ResourceTracker};
use crate::memory::{Cache, CacheConfig};
use crate::performance::PerformanceConfig;
use crate::text::owned;
use std::time::Duration;
use vstd::prelude::*;

verus! {

/// Settings for everything.
#[derive(Debug)]
pub struct DaggerConfig {
    pub cache: CacheConfig,
    pub limits: ResourceLimits,
    pub performance: PerformanceConfig,
    /// Where the database is.
    pub database_path: Option<String>,
    pub logging: LoggingConfig,
    pub network: NetworkConfig,
    pub security: SecurityConfig,
}

/// Whether `c` holds these settings and the usual water marks; times are in seconds.
pub open spec fn holds_cache(c: CacheConfig, bytes: int, entries: int, ttl_secs: int, cleanup_secs: int) -> bool {
    &&& c.max_memory_bytes == bytes
    &&& c.max_entries == entries
    &&& nanos(c.ttl) == ttl_secs * 1_000_000_000
    &&& nanos(c.cleanup_interval) == cleanup_secs * 1_000_000_000
    &&& c.low_water_mark.bits == SEVEN_TENTHS
    &&& c.high_water_mark.bits == NINE_TENTHS
}

/// Whether `p` holds these settings; the interval is in seconds.
pub open spec fn holds_performance(p: PerformanceConfig, threshold: int, batch: int, pool: int, secs: int) -> bool {
    &&& p.async_serialization_threshold == threshold
    &&& p.database_batch_size == batch
    &&& p.connection_pool_size == pool
    &&& nanos(p.background_task_interval) == secs * 1_000_000_000
    &&& p.cache_prewarming_enabled
    &&& p.object_pooling_enabled
    &&& p.compression_threshold == 1_000_000
}

/// The usual limits.
pub open spec fn usual_limits(l: ResourceLimits) -> bool {
    holds_limits(l, 1_000_000_000, 100, 10_000, 50_000, 1_000, 100, 300, 3600, 20, 5, 10_000_000, 1_000, EIGHTY)
}

/// Narrow limits.
pub open spec fn narrow_limits(l: ResourceLimits) -> bool {
    holds_limits(l, 100_000_000, 10, 1_000, 5_000, 100, 10, 30, 300, 10, 3, 1_000_000, 100, FIFTY)
}

/// Whether nothing but the level and the form differs from the usual.
pub open spec fn holds_logging(l: LoggingConfig, level: LogLevel, structured: bool) -> bool {
    l == (LoggingConfig { level, structured, file_path: None, max_file_size_mb: 100, max_files: 5 })
}

/// The usual network settings.
pub open spec fn usual_network(n: NetworkConfig) -> bool {
    &&& n.bind_address@ == "127.0.0.1"@
    &&& n.port == 8080
    &&& n.max_connections == 1000
    &&& nanos(n.connection_timeout) == 30_000_000_000
    &&& nanos(n.read_timeout) == 30_000_000_000
    &&& nanos(n.write_timeout) == 30_000_000_000
    &&& n.keep_alive
}

/// Whether nothing but authentication differs from the usual.
pub open spec fn holds_security(s: SecurityConfig, auth: bool) -> bool {
    &&& s.enable_auth == auth
    &&& nanos(s.auth_token_ttl) == 3_600_000_000_000
    &&& !s.enable_tls
    &&& s.cert_path is None
    &&& s.key_path is None
    &&& s.allowed_origins@.len() == 1
    &&& s.allowed_origins@[0]@ == "*"@
    &&& s.rate_limit_requests_per_minute == 1000
}

impl Default for DaggerConfig {
    fn default() -> (r: Self)
        ensures
            holds_cache(r.cache, 104_857_600, 10_000, 3600, 30),
            usual_limits(r.limits),
            holds_performance(r.performance, 100_000, 100, 10, 30),
            r.database_path is None,
            holds_logging(r.logging, LogLevel::Info, false),
            usual_network(r.network),
            holds_security(r.security, false),
            r.problem() is None,
    {
        DaggerConfig {
            cache: CacheConfig::default(),
            limits: ResourceLimits::default(),
            performance: PerformanceConfig::default(),
            database_path: None,
            logging: LoggingConfig::default(),
            network: NetworkConfig::default(),
            security: SecurityConfig::default(),
        }
    }
}

impl DaggerConfig {
    /// What is wrong with the settings: the first thing in the order of cache, limits, logging,
    /// network and security.
    pub open spec fn problem(&self) -> Option<Seq<char>> {
        if self.cache.problem() is Some {
            self.cache.problem()
        } else if self.limits.problem() is Some {
            self.limits.problem()
        } else if self.logging.problem() is Some {
            self.logging.problem()
        } else if self.network.problem() is Some {
            self.network.problem()
        } else {
            self.security.problem()
        }
    }

    /// Checks the settings.
    pub fn validate(&self) -> (r: Result<(), DaggerError>)
        ensures
            r is Ok <==> self.problem() is None,
            r matches Err(e) ==> self.problem() is Some && e.is_configuration(self.problem()->0),
    {
        match self.cache.validate() {
            Ok(()) => {},
            Err(e) => {
                return Err(e);
            },
        }
        match self.limits.validate() {
            Ok(()) => {},
            Err(e) => {
                return Err(e);
            },
        }
        match self.logging.validate() {
            Ok(()) => {},
            Err(e) => {
                return Err(e);
            },
        }
        match self.network.validate() {
            Ok(()) => {},
            Err(e) => {
                return Err(e);
            },
        }
        self.security.validate()
    }

    /// Settings for development.
    pub fn development() -> (r: Self)
        ensures
            holds_cache(r.cache, 52_428_800, 1_000, 3600, 60),
            narrow_limits(r.limits),
            holds_performance(r.performance, 50_000, 50, 5, 60),
            r.database_path is None,
            holds_logging(r.logging, LogLevel::Debug, false),
            usual_network(r.network),
            holds_security(r.security, false),
            r.problem() is None,
    {
        let mut cache = CacheConfig::default();
        cache.max_memory_bytes = 52_428_800;
        cache.max_entries = 1_000;
        cache.cleanup_interval = Duration::from_secs(60);
        let mut performance = PerformanceConfig::default();
        performance.async_serialization_threshold = 50_000;
        performance.database_batch_size = 50;
        performance.connection_pool_size = 5;
        performance.background_task_interval = Duration::from_secs(60);
        let mut logging = LoggingConfig::default();
        logging.level = LogLevel::Debug;
        DaggerConfig {
            cache,
            limits: ResourceLimits::conservative(),
            performance,
            database_path: None,
            logging,
            network: NetworkConfig::default(),
            security: SecurityConfig::default(),
        }
    }

    /// Settings for production.
    pub fn production() -> (r: Self)
        ensures
            holds_cache(r.cache, 524_288_000, 100_000, 3600, 30),
            usual_limits(r.limits),
            holds_performance(r.performance, 100_000, 100, 10, 30),
            r.database_path is None,
            holds_logging(r.logging, LogLevel::Info, true),
            usual_network(r.network),
            holds_security(r.security, true),
            r.problem() is None,
    {
        let mut cache = CacheConfig::default();
        cache.max_memory_bytes = 524_288_000;
        cache.max_entries = 100_000;
        cache.cleanup_interval = Duration::from_secs(30);
        let performance = PerformanceConfig::default();
        let mut logging = LoggingConfig::default();
        logging.level = LogLevel::Info;
        logging.structured = true;
        let mut security = SecurityConfig::default();
        security.enable_auth = true;
        DaggerConfig {
            cache,
            limits: ResourceLimits::default(),
            performance,
            database_path: None,
            logging,
            network: NetworkConfig::default(),
            security,
        }
    }

    /// Settings for tests.
    pub fn testing() -> (r: Self)
        ensures
            holds_cache(r.cache, 10_485_760, 100, 60, 10),
            narrow_limits(r.limits),
            holds_performance(r.performance, 10_000, 10, 2, 5),
            r.database_path is None,
            holds_logging(r.logging, LogLevel::Trace, false),
            usual_network(r.network),
            holds_security(r.security, false),
            r.problem() is None,
    {
        let mut cache = CacheConfig::default();
        cache.max_memory_bytes = 10_485_760;
        cache.max_entries = 100;
        cache.ttl = Duration::from_secs(60);
        cache.cleanup_interval = Duration::from_secs(10);
        let mut performance = PerformanceConfig::default();
        performance.async_serialization_threshold = 10_000;
        performance.database_batch_size = 10;
        performance.connection_pool_size = 2;
        performance.background_task_interval = Duration::from_secs(5);
        let mut logging = LoggingConfig::default();
        logging.level = LogLevel::Trace;
        DaggerConfig {
            cache,
            limits: ResourceLimits::conservative(),
            performance,
            database_path: None,
            logging,
            network: NetworkConfig::default(),
            security: SecurityConfig::default(),
        }
    }
}

/// How the library logs.
#[derive(Debug)]
pub struct LoggingConfig {
    pub level: LogLevel,
    pub structured: bool,
    pub file_path: Option<String>,
    pub max_file_size_mb: usize,
    pub max_files: usize,
}

impl Default for LoggingConfig {
    fn default() -> (r: Self)
        ensures
            holds_logging(r, LogLevel::Info, false),
            r.problem() is None,
    {
        LoggingConfig { level: LogLevel::Info, structured: false, file_path: None, max_file_size_mb: 100, max_files: 5 }
    }
}

impl LoggingConfig {
    /// What is wrong with the settings.
    pub open spec fn problem(&self) -> Option<Seq<char>> {
        if self.max_file_size_mb == 0 {
            Some("max_file_size_mb must be greater than 0"@)
        } else if self.max_files == 0 {
            Some("max_files must be greater than 0"@)
        } else {
            None
        }
    }

    /// Checks the settings.
    pub fn validate(&self) -> (r: Result<(), DaggerError>)
        ensures
            r is Ok <==> self.problem() is None,
            r matches Err(e) ==> self.problem() is Some && e.is_configuration(self.problem()->0),
    {
        if self.max_file_size_mb == 0 {
            return Err(DaggerError::configuration("max_file_size_mb must be greater than 0"));
        }
        if self.max_files == 0 {
            return Err(DaggerError::configuration("max_files must be greater than 0"));
        }
        Ok(())
    }
}

/// How much is logged.
#[derive(Debug, Clone, Copy, PartialEq, Eq, Structural)]
pub enum LogLevel {
    Trace,
    Debug,
    Info,
    Warn,
    Error,
}

/// How the library is reached.
#[derive(Debug)]
pub struct NetworkConfig {
    pub bind_address: String,
    pub port: u16,
    pub max_connections: usize,
    pub connection_timeout: Duration,
    pub read_timeout: Duration,
    pub write_timeout: Duration,
    pub keep_alive: bool,
}

impl Default for NetworkConfig {
    fn default() -> (r: Self)
        ensures
            usual_network(r),
            r.problem() is None,
    {
        NetworkConfig {
            bind_address: owned("127.0.0.1"),
            port: 8080,
            max_connections: 1000,
            connection_timeout: Duration::from_secs(30),
            read_timeout: Duration::from_secs(30),
            write_timeout: Duration::from_secs(30),
            keep_alive: true,
        }
    }
}

impl NetworkConfig {
    /// What is wrong with the settings.
    pub open spec fn problem(&self) -> Option<Seq<char>> {
        if self.port == 0 {
            Some("port must be greater than 0"@)
        } else if self.max_connections == 0 {
            Some("max_connections must be greater than 0"@)
        } else {
            None
        }
    }

    /// Checks the settings.
    pub fn validate(&self) -> (r: Result<(), DaggerError>)
        ensures
            r is Ok <==> self.problem() is None,
            r matches Err(e) ==> self.problem() is Some && e.is_configuration(self.problem()->0),
    {
        if self.port == 0 {
            return Err(DaggerError::configuration("port must be greater than 0"));
        }
        if self.max_connections == 0 {
            return Err(DaggerError::configuration("max_connections must be greater than 0"));
        }
        Ok(())
    }
}

/// Who may do what.
#[derive(Debug)]
pub struct SecurityConfig {
    pub enable_auth: bool,
    pub auth_token_ttl: Duration,
    pub enable_tls: bool,
    pub cert_path: Option<String>,
    pub key_path: Option<String>,
    pub allowed_origins: Vec<String>,
    pub rate_limit_requests_per_minute: usize,
}

impl Default for SecurityConfig {
    fn default() -> (r: Self)
        ensures
            holds_security(r, false),
            r.problem() is None,
    {
        let mut allowed_origins: Vec<String> = Vec::new();
        allowed_origins.push(owned("*"));
        SecurityConfig {
            enable_auth: false,
            auth_token_ttl: Duration::from_secs(3600),
            enable_tls: false,
            cert_path: None,
            key_path: None,
            allowed_origins,
            rate_limit_requests_per_minute: 1000,
        }
    }
}

impl SecurityConfig {
    /// What is wrong with the settings.
    pub open spec fn problem(&self) -> Option<Seq<char>> {
        if self.enable_tls && self.cert_path is None {
            Some("cert_path required when TLS is enabled"@)
        } else if self.enable_tls && self.key_path is None {
            Some("key_path required when TLS is enabled"@)
        } else if self.rate_limit_requests_per_minute == 0 {
            Some("rate_limit_requests_per_minute must be greater than 0"@)
        } else {
            None
        }
    }

    /// Checks the settings.
    pub fn validate(&self) -> (r: Result<(), DaggerError>)
        ensures
            r is Ok <==> self.problem() is None,
            r matches Err(e) ==> self.problem() is Some && e.is_configuration(self.problem()->0),
    {
        if self.enable_tls {
            if self.cert_path.is_none() {
                return Err(DaggerError::configuration("cert_path required when TLS is enabled"));
            }
            if self.key_path.is_none() {
                return Err(DaggerError::configuration("key_path required when TLS is enabled"));
            }
        }
        if self.rate_limit_requests_per_minute == 0 {
            return Err(DaggerError::configuration("rate_limit_requests_per_minute must be greater than 0"));
        }
        Ok(())
    }
}

/// Puts settings together.
#[derive(Debug)]
pub struct DaggerBuilder {
    pub config: DaggerConfig,
}

impl Default for DaggerBuilder {
    fn default() -> (r: Self)
        ensures
            holds_cache(r.config.cache, 104_857_600, 10_000, 3600, 30),
            usual_limits(r.config.limits),
            holds_performance(r.config.performance, 100_000, 100, 10, 30),
            r.config.database_path is None,
            holds_logging(r.config.logging, LogLevel::Info, false),
            usual_network(r.config.network),
            holds_security(r.config.security, false),
    {
        DaggerBuilder::new()
    }
}

impl DaggerBuilder {
    /// Starts from the usual settings.
    pub fn new() -> (r: Self)
        ensures
            holds_cache(r.config.cache, 104_857_600, 10_000, 3600, 30),
            usual_limits(r.config.limits),
            holds_performance(r.config.performance, 100_000, 100, 10, 30),
            r.config.database_path is None,
            holds_logging(r.config.logging, LogLevel::Info, false),
            usual_network(r.config.network),
            holds_security(r.config.security, false),
            r.config.problem() is None,
    {
        DaggerBuilder { config: DaggerConfig::default() }
    }

    /// Starts from the settings for development.
    pub fn development() -> (r: Self)
        ensures
            holds_cache(r.config.cache, 52_428_800, 1_000, 3600, 60),
            narrow_limits(r.config.limits),
            holds_performance(r.config.performance, 50_000, 50, 5, 60),
            r.config.database_path is None,
            holds_logging(r.config.logging, LogLevel::Debug, false),
            usual_network(r.config.network),
            holds_security(r.config.security, false),
            r.config.problem() is None,
    {
        DaggerBuilder { config: DaggerConfig::development() }
    }

    /// Starts from the settings for production.
    pub fn production() -> (r: Self)
        ensures
            holds_cache(r.config.cache, 524_288_000, 100_000, 3600, 30),
            usual_limits(r.config.limits),
            holds_performance(r.config.performance, 100_000, 100, 10, 30),
            r.config.database_path is None,
            holds_logging(r.config.logging, LogLevel::Info, true),
            usual_network(r.config.network),
            holds_security(r.config.security, true),
            r.config.problem() is None,
    {
        DaggerBuilder { config: DaggerConfig::production() }
    }

    /// Starts from the settings for tests.
    pub fn testing() -> (r: Self)
        ensures
            holds_cache(r.config.cache, 10_485_760, 100, 60, 10),
            narrow_limits(r.config.limits),
            holds_performance(r.config.performance, 10_000, 10, 2, 5),
            r.config.database_path is None,
            holds_logging(r.config.logging, LogLevel::Trace, false),
            usual_network(r.config.network),
            holds_security(r.config.security, false),
            r.config.problem() is None,
    {
        DaggerBuilder { config: DaggerConfig::testing() }
    }

    /// Changes the settings for cache as `configure` does.
    pub fn cache<F: FnOnce(CacheConfigBuilder) -> CacheConfigBuilder>(self, configure: F) -> (r: Self)
        requires
            call_requires(configure, (CacheConfigBuilder { config: self.config.cache },)),
        ensures
            r.config == (DaggerConfig { cache: r.config.cache, ..self.config }),
            call_ensures(
                configure,
                (CacheConfigBuilder { config: self.config.cache },),
                CacheConfigBuilder { config: r.config.cache },
            ),
    {
        let mut config = self.config;
        let changed = configure(CacheConfigBuilder { config: config.cache });
        config.cache = changed.config;
        DaggerBuilder { config }
    }

    /// Changes the settings for limits as `configure` does.
    pub fn limits<F: FnOnce(ResourceLimitsBuilder) -> ResourceLimitsBuilder>(self, configure: F) -> (r: Self)
        requires
            call_requires(configure, (ResourceLimitsBuilder { limits: self.config.limits },)),
        ensures
            r.config == (DaggerConfig { limits: r.config.limits, ..self.config }),
            call_ensures(
                configure,
                (ResourceLimitsBuilder { limits: self.config.limits },),
                ResourceLimitsBuilder { limits: r.config.limits },
            ),
    {
        let mut config = self.config;
        let changed = configure(ResourceLimitsBuilder { limits: config.limits });
        config.limits = changed.limits;
        DaggerBuilder { config }
    }

    /// Changes the settings for speed as `configure` does.
    pub fn performance<F: FnOnce(PerformanceConfigBuilder) -> PerformanceConfigBuilder>(self, configure: F) -> (r: Self)
        requires
            call_requires(configure, (PerformanceConfigBuilder { config: self.config.performance },)),
        ensures
            r.config == (DaggerConfig { performance: r.config.performance, ..self.config }),
            call_ensures(
                configure,
                (PerformanceConfigBuilder { config: self.config.performance },),
                PerformanceConfigBuilder { config: r.config.performance },
            ),
    {
        let mut config = self.config;
        let changed = configure(PerformanceConfigBuilder { config: config.performance });
        config.performance = changed.config;
        DaggerBuilder { config }
    }

    /// Changes the settings for logging as `configure` does.
    pub fn logging<F: FnOnce(LoggingConfigBuilder) -> LoggingConfigBuilder>(self, configure: F) -> (r: Self)
        requires
            call_requires(configure, (LoggingConfigBuilder { config: self.config.logging },)),
        ensures
            r.config == (DaggerConfig { logging: r.config.logging, ..self.config }),
            call_ensures(
                configure,
                (LoggingConfigBuilder { config: self.config.logging },),
                LoggingConfigBuilder { config: r.config.logging },
            ),
    {
        let mut config = self.config;
        let changed = configure(LoggingConfigBuilder { config: config.logging });
        config.logging = changed.config;
        DaggerBuilder { config }
    }

    /// Changes the settings for network as `configure` does.
    pub fn network<F: FnOnce(NetworkConfigBuilder) -> NetworkConfigBuilder>(self, configure: F) -> (r: Self)
        requires
            call_requires(configure, (NetworkConfigBuilder { config: self.config.network },)),
        ensures
            r.config == (DaggerConfig { network: r.config.network, ..self.config }),
            call_ensures(
                configure,
                (NetworkConfigBuilder { config: self.config.network },),
                NetworkConfigBuilder { config: r.config.network },
            ),
    {
        let mut config = self.config;
        let changed = configure(NetworkConfigBuilder { config: config.network });
        config.network = changed.config;
        DaggerBuilder { config }
    }

    /// Changes the settings for security as `configure` does.
    pub fn security<F: FnOnce(SecurityConfigBuilder) -> SecurityConfigBuilder>(self, configure: F) -> (r: Self)
        requires
            call_requires(configure, (SecurityConfigBuilder { config: self.config.security },)),
        ensures
            r.config == (DaggerConfig { security: r.config.security, ..self.config }),
            call_ensures(
                configure,
                (SecurityConfigBuilder { config: self.config.security },),
                SecurityConfigBuilder { config: r.config.security },
            ),
    {
        let mut config = self.config;
        let changed = configure(SecurityConfigBuilder { config: config.security });
        config.security = changed.config;
        DaggerBuilder { config }
    }

    /// Sets where the database is.
    pub fn database_path(self, path: &str) -> (r: Self)
        ensures
            r.config == (DaggerConfig { database_path: r.config.database_path, ..self.config }),
            r.config.database_path matches Some(t) && t@ == path@,
    {
        let mut config = self.config;
        config.database_path = Some(owned(path));
        DaggerBuilder { config }
    }

    /// The settings, where nothing is wrong with them.
    pub fn build(self) -> (r: Result<DaggerConfig, DaggerError>)
        ensures
            r is Ok <==> self.config.problem() is None,
            r matches Ok(c) ==> c == self.config,
            r matches Err(e) ==> self.config.problem() is Some && e.is_configuration(self.config.problem()->0),
    {
        match self.config.validate() {
            Ok(()) => Ok(self.config),
            Err(e) => Err(e),
        }
    }

    /// The settings, whatever may be wrong with them.
    pub fn build_unchecked(self) -> (r: DaggerConfig)
        ensures
            r == self.config,
    {
        self.config
    }
}

/// Changes the settings of a cache.
#[derive(Debug)]
pub struct CacheConfigBuilder {
    pub config: CacheConfig,
}

impl CacheConfigBuilder {
    /// Sets how much memory may be used.
    pub fn max_memory_bytes(self, bytes: usize) -> (r: Self)
        ensures
            r.config == (CacheConfig { max_memory_bytes: bytes, ..self.config }),
    {
        let mut config = self.config;
        config.max_memory_bytes = bytes;
        CacheConfigBuilder { config }
    }

    /// Sets how much memory may be used, in units of 1,048,576 bytes.
    pub fn max_memory_mb(self, mb: usize) -> (r: Self)
        requires
            mb * 1_048_576 <= usize::MAX,
        ensures
            r.config == (CacheConfig { max_memory_bytes: (mb * 1_048_576) as usize, ..self.config }),
    {
        let mut config = self.config;
        config.max_memory_bytes = mb * 1_048_576;
        CacheConfigBuilder { config }
    }

    /// Sets how many entries there may be.
    pub fn max_entries(self, entries: usize) -> (r: Self)
        ensures
            r.config == (CacheConfig { max_entries: entries, ..self.config }),
    {
        let mut config = self.config;
        config.max_entries = entries;
        CacheConfigBuilder { config }
    }

    /// Sets after how long without use an entry is forgotten.
    pub fn ttl(self, duration: Duration) -> (r: Self)
        ensures
            r.config == (CacheConfig { ttl: duration, ..self.config }),
    {
        let mut config = self.config;
        config.ttl = duration;
        CacheConfigBuilder { config }
    }

    /// Sets how often entries are forgotten.
    pub fn cleanup_interval(self, duration: Duration) -> (r: Self)
        ensures
            r.config == (CacheConfig { cleanup_interval: duration, ..self.config }),
    {
        let mut config = self.config;
        config.cleanup_interval = duration;
        CacheConfigBuilder { config }
    }

    /// Sets the shares down to which and from which on entries are forgotten.
    pub fn water_marks(self, low: Double, high: Double) -> (r: Self)
        ensures
            r.config == (CacheConfig { low_water_mark: low, high_water_mark: high, ..self.config }),
    {
        let mut config = self.config;
        config.low_water_mark = low;
        config.high_water_mark = high;
        CacheConfigBuilder { config }
    }
}

/// Changes limits.
#[derive(Debug)]
pub struct ResourceLimitsBuilder {
    pub limits: ResourceLimits,
}

impl ResourceLimitsBuilder {
    /// Limits the memory.
    pub fn max_memory_bytes(self, bytes: u64) -> (r: Self)
        ensures
            r.limits == (ResourceLimits { max_memory_bytes: bytes, ..self.limits }),
    {
        let mut limits = self.limits;
        limits.max_memory_bytes = bytes;
        ResourceLimitsBuilder { limits }
    }

    /// Limits the memory, in units of 1,073,741,824 bytes.
    pub fn max_memory_gb(self, gb: u64) -> (r: Self)
        requires
            gb * 1_073_741_824 <= u64::MAX,
        ensures
            r.limits == (ResourceLimits { max_memory_bytes: (gb * 1_073_741_824) as u64, ..self.limits }),
    {
        let mut limits = self.limits;
        limits.max_memory_bytes = gb * 1_073_741_824;
        ResourceLimitsBuilder { limits }
    }

    /// Limits the tasks at a time.
    pub fn max_concurrent_tasks(self, tasks: usize) -> (r: Self)
        ensures
            r.limits == (ResourceLimits { max_concurrent_tasks: tasks, ..self.limits }),
    {
        let mut limits = self.limits;
        limits.max_concurrent_tasks = tasks;
        ResourceLimitsBuilder { limits }
    }

    /// Limits the nodes of the execution tree.
    pub fn max_execution_tree_nodes(self, nodes: usize) -> (r: Self)
        ensures
            r.limits == (ResourceLimits { max_execution_tree_nodes: nodes, ..self.limits }),
    {
        let mut limits = self.limits;
        limits.max_execution_tree_nodes = nodes;
        ResourceLimitsBuilder { limits }
    }

    /// Limits the cache entries.
    pub fn max_cache_entries(self, entries: usize) -> (r: Self)
        ensures
            r.limits == (ResourceLimits { max_cache_entries: entries, ..self.limits }),
    {
        let mut limits = self.limits;
        limits.max_cache_entries = entries;
        ResourceLimitsBuilder { limits }
    }

    /// Limits the open files.
    pub fn max_file_handles(self, handles: usize) -> (r: Self)
        ensures
            r.limits == (ResourceLimits { max_file_handles: handles, ..self.limits }),
    {
        let mut limits = self.limits;
        limits.max_file_handles = handles;
        ResourceLimitsBuilder { limits }
    }

    /// Limits the open connections.
    pub fn max_network_connections(self, connections: usize) -> (r: Self)
        ensures
            r.limits == (ResourceLimits { max_network_connections: connections, ..self.limits }),
    {
        let mut limits = self.limits;
        limits.max_network_connections = connections;
        ResourceLimitsBuilder { limits }
    }

    /// Limits how long a task may take.
    pub fn task_execution_timeout(self, duration: Duration) -> (r: Self)
        ensures
            r.limits == (ResourceLimits { max_task_execution_time: duration, ..self.limits }),
    {
        let mut limits = self.limits;
        limits.max_task_execution_time = duration;
        ResourceLimitsBuilder { limits }
    }

    /// Limits how long everything may take.
    pub fn total_execution_timeout(self, duration: Duration) -> (r: Self)
        ensures
            r.limits == (ResourceLimits { max_total_execution_time: duration, ..self.limits }),
    {
        let mut limits = self.limits;
        limits.max_total_execution_time = duration;
        ResourceLimitsBuilder { limits }
    }

    /// Limits how deep dependencies go.
    pub fn max_dependency_depth(self, depth: usize) -> (r: Self)
        ensures
            r.limits == (ResourceLimits { max_dependency_depth: depth, ..self.limits }),
    {
        let mut limits = self.limits;
        limits.max_dependency_depth = depth;
        ResourceLimitsBuilder { limits }
    }

    /// Limits how often a task is tried again.
    pub fn max_task_retries(self, retries: u32) -> (r: Self)
        ensures
            r.limits == (ResourceLimits { max_task_retries: retries, ..self.limits }),
    {
        let mut limits = self.limits;
        limits.max_task_retries = retries;
        ResourceLimitsBuilder { limits }
    }

    /// Limits the size of a message.
    pub fn max_message_size_bytes(self, bytes: usize) -> (r: Self)
        ensures
            r.limits == (ResourceLimits { max_message_size_bytes: bytes, ..self.limits }),
    {
        let mut limits = self.limits;
        limits.max_message_size_bytes = bytes;
        ResourceLimitsBuilder { limits }
    }

    /// Limits the size of a message, in units of 1,048,576 bytes.
    pub fn max_message_size_mb(self, mb: usize) -> (r: Self)
        requires
            mb * 1_048_576 <= usize::MAX,
        ensures
            r.limits == (ResourceLimits { max_message_size_bytes: (mb * 1_048_576) as usize, ..self.limits }),
    {
        let mut limits = self.limits;
        limits.max_message_size_bytes = mb * 1_048_576;
        ResourceLimitsBuilder { limits }
    }

    /// Limits how many messages wait in a channel.
    pub fn max_channel_queue_size(self, size: usize) -> (r: Self)
        ensures
            r.limits == (ResourceLimits { max_channel_queue_size: size, ..self.limits }),
    {
        let mut limits = self.limits;
        limits.max_channel_queue_size = size;
        ResourceLimitsBuilder { limits }
    }

    /// Limits the use of the processor.
    pub fn max_cpu_usage_percent(self, percent: Double) -> (r: Self)
        ensures
            r.limits == (ResourceLimits { max_cpu_usage_percent: percent, ..self.limits }),
    {
        let mut limits = self.limits;
        limits.max_cpu_usage_percent = percent;
        ResourceLimitsBuilder { limits }
    }
}

/// Changes the settings for speed.
#[derive(Debug)]
pub struct PerformanceConfigBuilder {
    pub config: PerformanceConfig,
}

impl PerformanceConfigBuilder {
    /// Sets from which size on values are serialized in the background.
    pub fn async_serialization_threshold(self, bytes: usize) -> (r: Self)
        ensures
            r.config == (PerformanceConfig { async_serialization_threshold: bytes, ..self.config }),
    {
        let mut config = self.config;
        config.async_serialization_threshold = bytes;
        PerformanceConfigBuilder { config }
    }

    /// Sets from which size on values are serialized in the background, in units of 1,024 bytes.
    pub fn async_serialization_threshold_kb(self, kb: usize) -> (r: Self)
        requires
            kb * 1_024 <= usize::MAX,
        ensures
            r.config == (PerformanceConfig { async_serialization_threshold: (kb * 1_024) as usize, ..self.config }),
    {
        let mut config = self.config;
        config.async_serialization_threshold = kb * 1_024;
        PerformanceConfigBuilder { config }
    }

    /// Sets how much is written to the database at once.
    pub fn database_batch_size(self, size: usize) -> (r: Self)
        ensures
            r.config == (PerformanceConfig { database_batch_size: size, ..self.config }),
    {
        let mut config = self.config;
        config.database_batch_size = size;
        PerformanceConfigBuilder { config }
    }

    /// Sets how many connections are kept open.
    pub fn connection_pool_size(self, size: usize) -> (r: Self)
        ensures
            r.config == (PerformanceConfig { connection_pool_size: size, ..self.config }),
    {
        let mut config = self.config;
        config.connection_pool_size = size;
        PerformanceConfigBuilder { config }
    }

    /// Sets how often background work is done.
    pub fn background_task_interval(self, duration: Duration) -> (r: Self)
        ensures
            r.config == (PerformanceConfig { background_task_interval: duration, ..self.config }),
    {
        let mut config = self.config;
        config.background_task_interval = duration;
        PerformanceConfigBuilder { config }
    }

    /// Sets whether caches are filled beforehand.
    pub fn enable_cache_prewarming(self, enabled: bool) -> (r: Self)
        ensures
            r.config == (PerformanceConfig { cache_prewarming_enabled: enabled, ..self.config }),
    {
        let mut config = self.config;
        config.cache_prewarming_enabled = enabled;
        PerformanceConfigBuilder { config }
    }

    /// Sets whether objects are used again.
    pub fn enable_object_pooling(self, enabled: bool) -> (r: Self)
        ensures
            r.config == (PerformanceConfig { object_pooling_enabled: enabled, ..self.config }),
    {
        let mut config = self.config;
        config.object_pooling_enabled = enabled;
        PerformanceConfigBuilder { config }
    }

    /// Sets from which size on data is compressed.
    pub fn compression_threshold(self, bytes: usize) -> (r: Self)
        ensures
            r.config == (PerformanceConfig { compression_threshold: bytes, ..self.config }),
    {
        let mut config = self.config;
        config.compression_threshold = bytes;
        PerformanceConfigBuilder { config }
    }

    /// Sets from which size on data is compressed, in units of 1,048,576 bytes.
    pub fn compression_threshold_mb(self, mb: usize) -> (r: Self)
        requires
            mb * 1_048_576 <= usize::MAX,
        ensures
            r.config == (PerformanceConfig { compression_threshold: (mb * 1_048_576) as usize, ..self.config }),
    {
        let mut config = self.config;
        config.compression_threshold = mb * 1_048_576;
        PerformanceConfigBuilder { config }
    }
}

/// Changes how the library logs.
#[derive(Debug)]
pub struct LoggingConfigBuilder {
    pub config: LoggingConfig,
}

impl LoggingConfigBuilder {
    /// Sets how much is logged.
    pub fn level(self, level: LogLevel) -> (r: Self)
        ensures
            r.config == (LoggingConfig { level, ..self.config }),
    {
        let mut config = self.config;
        config.level = level;
        LoggingConfigBuilder { config }
    }

    /// Logs at the level `Trace`.
    pub fn trace(self) -> (r: Self)
        ensures
            r.config == (LoggingConfig { level: LogLevel::Trace, ..self.config }),
    {
        let mut config = self.config;
        config.level = LogLevel::Trace;
        LoggingConfigBuilder { config }
    }

    /// Logs at the level `Debug`.
    pub fn debug(self) -> (r: Self)
        ensures
            r.config == (LoggingConfig { level: LogLevel::Debug, ..self.config }),
    {
        let mut config = self.config;
        config.level = LogLevel::Debug;
        LoggingConfigBuilder { config }
    }

    /// Logs at the level `Info`.
    pub fn info(self) -> (r: Self)
        ensures
            r.config == (LoggingConfig { level: LogLevel::Info, ..self.config }),
    {
        let mut config = self.config;
        config.level = LogLevel::Info;
        LoggingConfigBuilder { config }
    }

    /// Logs at the level `Warn`.
    pub fn warn(self) -> (r: Self)
        ensures
            r.config == (LoggingConfig { level: LogLevel::Warn, ..self.config }),
    {
        let mut config = self.config;
        config.level = LogLevel::Warn;
        LoggingConfigBuilder { config }
    }

    /// Logs at the level `Error`.
    pub fn error(self) -> (r: Self)
        ensures
            r.config == (LoggingConfig { level: LogLevel::Error, ..self.config }),
    {
        let mut config = self.config;
        config.level = LogLevel::Error;
        LoggingConfigBuilder { config }
    }

    /// Sets whether log lines are structured.
    pub fn structured(self, enabled: bool) -> (r: Self)
        ensures
            r.config == (LoggingConfig { structured: enabled, ..self.config }),
    {
        let mut config = self.config;
        config.structured = enabled;
        LoggingConfigBuilder { config }
    }

    /// Sets where the log file is.
    pub fn file_path(self, path: &str) -> (r: Self)
        ensures
            r.config == (LoggingConfig { file_path: r.config.file_path, ..self.config }),
            r.config.file_path matches Some(t) && t@ == path@,
    {
        let mut config = self.config;
        config.file_path = Some(owned(path));
        LoggingConfigBuilder { config }
    }

    /// Sets how large a log file may grow.
    pub fn max_file_size_mb(self, mb: usize) -> (r: Self)
        ensures
            r.config == (LoggingConfig { max_file_size_mb: mb, ..self.config }),
    {
        let mut config = self.config;
        config.max_file_size_mb = mb;
        LoggingConfigBuilder { config }
    }

    /// Sets how many log files are kept.
    pub fn max_files(self, count: usize) -> (r: Self)
        ensures
            r.config == (LoggingConfig { max_files: count, ..self.config }),
    {
        let mut config = self.config;
        config.max_files = count;
        LoggingConfigBuilder { config }
    }
}

/// Changes how the library is reached.
#[derive(Debug)]
pub struct NetworkConfigBuilder {
    pub config: NetworkConfig,
}

impl NetworkConfigBuilder {
    /// Sets the address.
    pub fn bind_address(self, address: &str) -> (r: Self)
        ensures
            r.config == (NetworkConfig { bind_address: r.config.bind_address, ..self.config }),
            r.config.bind_address@ == address@,
    {
        let mut config = self.config;
        config.bind_address = owned(address);
        NetworkConfigBuilder { config }
    }

    /// Sets the port.
    pub fn port(self, port: u16) -> (r: Self)
        ensures
            r.config == (NetworkConfig { port, ..self.config }),
    {
        let mut config = self.config;
        config.port = port;
        NetworkConfigBuilder { config }
    }

    /// Sets how many connections there may be.
    pub fn max_connections(self, connections: usize) -> (r: Self)
        ensures
            r.config == (NetworkConfig { max_connections: connections, ..self.config }),
    {
        let mut config = self.config;
        config.max_connections = connections;
        NetworkConfigBuilder { config }
    }

    /// Sets how long connecting may take.
    pub fn connection_timeout(self, duration: Duration) -> (r: Self)
        ensures
            r.config == (NetworkConfig { connection_timeout: duration, ..self.config }),
    {
        let mut config = self.config;
        config.connection_timeout = duration;
        NetworkConfigBuilder { config }
    }

    /// Sets how long reading may take.
    pub fn read_timeout(self, duration: Duration) -> (r: Self)
        ensures
            r.config == (NetworkConfig { read_timeout: duration, ..self.config }),
    {
        let mut config = self.config;
        config.read_timeout = duration;
        NetworkConfigBuilder { config }
    }

    /// Sets how long writing may take.
    pub fn write_timeout(self, duration: Duration) -> (r: Self)
        ensures
            r.config == (NetworkConfig { write_timeout: duration, ..self.config }),
    {
        let mut config = self.config;
        config.write_timeout = duration;
        NetworkConfigBuilder { config }
    }

    /// Sets whether connections are kept open.
    pub fn keep_alive(self, enabled: bool) -> (r: Self)
        ensures
            r.config == (NetworkConfig { keep_alive: enabled, ..self.config }),
    {
        let mut config = self.config;
        config.keep_alive = enabled;
        NetworkConfigBuilder { config }
    }
}

/// Changes who may do what.
#[derive(Debug)]
pub struct SecurityConfigBuilder {
    pub config: SecurityConfig,
}

impl SecurityConfigBuilder {
    /// Sets whether callers must say who they are.
    pub fn enable_auth(self, enabled: bool) -> (r: Self)
        ensures
            r.config == (SecurityConfig { enable_auth: enabled, ..self.config }),
    {
        let mut config = self.config;
        config.enable_auth = enabled;
        SecurityConfigBuilder { config }
    }

    /// Sets for how long a token is good.
    pub fn auth_token_ttl(self, duration: Duration) -> (r: Self)
        ensures
            r.config == (SecurityConfig { auth_token_ttl: duration, ..self.config }),
    {
        let mut config = self.config;
        config.auth_token_ttl = duration;
        SecurityConfigBuilder { config }
    }

    /// Sets whether connections are encrypted.
    pub fn enable_tls(self, enabled: bool) -> (r: Self)
        ensures
            r.config == (SecurityConfig { enable_tls: enabled, ..self.config }),
    {
        let mut config = self.config;
        config.enable_tls = enabled;
        SecurityConfigBuilder { config }
    }

    /// Sets where the certificate is.
    pub fn cert_path(self, path: &str) -> (r: Self)
        ensures
            r.config == (SecurityConfig { cert_path: r.config.cert_path, ..self.config }),
            r.config.cert_path matches Some(t) && t@ == path@,
    {
        let mut config = self.config;
        config.cert_path = Some(owned(path));
        SecurityConfigBuilder { config }
    }

    /// Sets where the key is.
    pub fn key_path(self, path: &str) -> (r: Self)
        ensures
            r.config == (SecurityConfig { key_path: r.config.key_path, ..self.config }),
            r.config.key_path matches Some(t) && t@ == path@,
    {
        let mut config = self.config;
        config.key_path = Some(owned(path));
        SecurityConfigBuilder { config }
    }

    /// Sets from where requests may come.
    pub fn allowed_origins(self, origins: Vec<String>) -> (r: Self)
        ensures
            r.config == (SecurityConfig { allowed_origins: origins, ..self.config }),
    {
        let mut config = self.config;
        config.allowed_origins = origins;
        SecurityConfigBuilder { config }
    }

    /// Sets how many requests there may be in a minute.
    pub fn rate_limit_requests_per_minute(self, requests: usize) -> (r: Self)
        ensures
            r.config == (SecurityConfig { rate_limit_requests_per_minute: requests, ..self.config }),
    {
        let mut config = self.config;
        config.rate_limit_requests_per_minute = requests;
        SecurityConfigBuilder { config }
    }
}

/// Settings in order, with the parts that are made from them.
pub struct Dagger {
    config: DaggerConfig,
    cache: Option<Cache>,
    resource_tracker: Option<ResourceTracker>,
    task_registry: Option<ConcurrentTaskRegistry>,
}

impl Dagger {
    /// The settings.
    pub closed spec fn settings(&self) -> DaggerConfig {
        self.config
    }

    /// The cache, once it was made.
    pub closed spec fn the_cache(&self) -> Option<Cache> {
        self.cache
    }

    /// What keeps count, once it was made.
    pub closed spec fn the_tracker(&self) -> Option<ResourceTracker> {
        self.resource_tracker
    }

    /// The tasks, once there is room for them.
    pub closed spec fn the_registry(&self) -> Option<ConcurrentTaskRegistry> {
        self.task_registry
    }

    /// Nothing is wrong with the settings.
    #[verifier::type_invariant]
    pub closed spec fn in_order(&self) -> bool {
        self.config.problem() is None
    }

    /// Takes settings that are in order.
    pub fn new(config: DaggerConfig) -> (r: Result<Self, DaggerError>)
        ensures
            r is Ok <==> config.problem() is None,
            r matches Ok(d) ==> d.settings() == config && d.the_cache() is None && d.the_tracker() is None
                && d.the_registry() is None,
            r matches Err(e) ==> config.problem() is Some && e.is_configuration(config.problem()->0),
    {
        match config.validate() {
            Ok(()) => Ok(Dagger { config, cache: None, resource_tracker: None, task_registry: None }),
            Err(e) => Err(e),
        }
    }

    /// Takes the settings of a builder, where they are in order.
    pub fn from_builder(builder: DaggerBuilder) -> (r: Result<Self, DaggerError>)
        ensures
            r is Ok <==> builder.config.problem() is None,
            r matches Ok(d) ==> d.settings() == builder.config && d.the_cache() is None && d.the_tracker() is None
                && d.the_registry() is None,
            r matches Err(e) ==> builder.config.problem() is Some && e.is_configuration(builder.config.problem()->0),
    {
        match builder.build() {
            Ok(config) => Dagger::new(config),
            Err(e) => Err(e),
        }
    }

    /// Makes the parts from the settings. That never fails.
    pub fn initialize(self) -> (r: Result<Self, DaggerError>)
        ensures
            r matches Ok(d) && {
                &&& d.settings() == self.settings()
                &&& d.the_cache() matches Some(c) && c.wf() && c@.entries.len() == 0 && c@.config == self.settings().cache
                &&& d.the_tracker() matches Some(t) && t.limits() == self.settings().limits && t.started() is None
                &&& d.the_registry() matches Some(t) && t.wf() && t@.count == 0 && t@.notifications.permits
                    == self.settings().limits.max_concurrent_tasks
            },
    {
        proof {
            use_type_invariant(&self);
        }
        let cache = match Cache::new(self.config.cache) {
            Ok(c) => c,
            Err(e) => {
                return Err(e);
            },
        };
        let tracker = match ResourceTracker::new(self.config.limits) {
            Ok(t) => t,
            Err(e) => {
                return Err(e);
            },
        };
        let registry = ConcurrentTaskRegistry::new(self.config.limits.max_concurrent_tasks);
        Ok(
            Dagger {
                config: self.config,
                cache: Some(cache),
                resource_tracker: Some(tracker),
                task_registry: Some(registry),
            },
        )
    }

    /// The cache, once it was made.
    pub fn cache(&self) -> (r: Option<&Cache>)
        ensures
            r == (match self.the_cache() {
                Some(c) => Some(&c),
                None => None,
            }),
    {
        self.cache.as_ref()
    }

    /// What keeps count, once it was made.
    pub fn resource_tracker(&self) -> (r: Option<&ResourceTracker>)
        ensures
            r == (match self.the_tracker() {
                Some(t) => Some(&t),
                None => None,
            }),
    {
        self.resource_tracker.as_ref()
    }

    /// The tasks, once there is room for them.
    pub fn task_registry(&self) -> (r: Option<&ConcurrentTaskRegistry>)
        ensures
            r == (match self.the_registry() {
                Some(t) => Some(&t),
                None => None,
            }),
    {
        self.task_registry.as_ref()
    }

    /// The settings. They are in order.
    pub fn config(&self) -> (r: &DaggerConfig)
        ensures
            *r == self.settings(),
            r.problem() is None,
    {
        proof {
            use_type_invariant(self);
        }
        &self.config
    }

    /// The cache, tracker and tasks, for those who use them.
    pub fn into_parts(self) -> (r: (DaggerConfig, Option<Cache>, Option<ResourceTracker>, Option<ConcurrentTaskRegistry>))
        ensures
            r == (self.settings(), self.the_cache(), self.the_tracker(), self.the_registry()),
    {
        (self.config, self.cache, self.resource_tracker, self.task_registry)
    }
}

/// Settings are in order exactly where each part of them is.
pub proof fn settings_are_checked(c: &DaggerConfig, r: Result<(), DaggerError>)
    requires
        call_ensures(DaggerConfig::validate, (c,), r),
    ensures
        r is Ok <==> {
            &&& c.cache.max_memory_bytes > 0 && c.cache.max_entries > 0
            &&& !c.cache.high_water_mark.at_most(c.cache.low_water_mark)
            &&& !(Double { bits: ONE }).below(c.cache.high_water_mark) && !c.cache.low_water_mark.below(Double { bits: ZERO })
            &&& c.limits.max_memory_bytes > 0 && c.limits.max_concurrent_tasks > 0 && c.limits.max_execution_tree_nodes > 0
            &&& c.limits.max_cache_entries > 0 && c.limits.max_dependency_depth > 0
            &&& c.limits.max_message_size_bytes > 0 && c.limits.max_channel_queue_size > 0
            &&& !c.limits.max_cpu_usage_percent.at_most(Double { bits: ZERO })
            &&& !(Double { bits: HUNDRED }).below(c.limits.max_cpu_usage_percent)
            &&& c.logging.max_file_size_mb > 0 && c.logging.max_files > 0
            &&& c.network.port > 0 && c.network.max_connections > 0
            &&& c.security.enable_tls ==> c.security.cert_path is Some && c.security.key_path is Some
            &&& c.security.rate_limit_requests_per_minute > 0
        },
        r matches Err(e) ==> e is Configuration,
{
}

/// Each part of the settings is in order where its numbers are above zero, and where there is a
/// certificate and a key if they are needed; what is wrong is named.
pub proof fn parts_are_checked(
    l: &LoggingConfig,
    n: &NetworkConfig,
    s: &SecurityConfig,
    rl: Result<(), DaggerError>,
    rn: Result<(), DaggerError>,
    rs: Result<(), DaggerError>,
)
    requires
        call_ensures(LoggingConfig::validate, (l,), rl),
        call_ensures(NetworkConfig::validate, (n,), rn),
        call_ensures(SecurityConfig::validate, (s,), rs),
    ensures
        rl is Ok <==> l.max_file_size_mb > 0 && l.max_files > 0,
        l.max_file_size_mb == 0 ==> (rl matches Err(DaggerError::Configuration { message, .. }) && message@
            == "max_file_size_mb must be greater than 0"@),
        l.max_file_size_mb > 0 && l.max_files == 0 ==> (rl matches Err(DaggerError::Configuration { message, .. }) && message@
            == "max_files must be greater than 0"@),
        rn is Ok <==> n.port > 0 && n.max_connections > 0,
        n.port == 0 ==> (rn matches Err(DaggerError::Configuration { message, .. }) && message@ == "port must be greater than 0"@),
        n.port > 0 && n.max_connections == 0 ==> (rn matches Err(DaggerError::Configuration { message, .. }) && message@
            == "max_connections must be greater than 0"@),
        rs is Ok <==> (s.enable_tls ==> s.cert_path is Some && s.key_path is Some) && s.rate_limit_requests_per_minute > 0,
        s.enable_tls && s.cert_path is None ==> (rs matches Err(DaggerError::Configuration { message, .. }) && message@
            == "cert_path required when TLS is enabled"@),
        s.enable_tls && s.cert_path is Some && s.key_path is None ==> (rs matches Err(
            DaggerError::Configuration { message, .. },
        ) && message@ == "key_path required when TLS is enabled"@),
        !s.enable_tls && s.rate_limit_requests_per_minute == 0 ==> (rs matches Err(DaggerError::Configuration { message, .. })
            && message@ == "rate_limit_requests_per_minute must be greater than 0"@),
{
}

/// What holds unless told otherwise.
pub proof fn usual_settings(c: DaggerConfig)
    requires
        call_ensures(DaggerConfig::default, (), c),
    ensures
        c.cache.max_memory_bytes == 104_857_600 && c.cache.max_entries == 10_000,
        nanos(c.cache.ttl) == 3_600_000_000_000 && nanos(c.cache.cleanup_interval) == 30_000_000_000,
        c.cache.low_water_mark.bits == SEVEN_TENTHS && c.cache.high_water_mark.bits == NINE_TENTHS,
        c.limits.max_memory_bytes == 1_000_000_000 && c.limits.max_concurrent_tasks == 100,
        c.performance.async_serialization_threshold == 100_000 && c.performance.database_batch_size == 100
            && c.performance.connection_pool_size == 10 && nanos(c.performance.background_task_interval) == 30_000_000_000
            && c.performance.cache_prewarming_enabled && c.performance.object_pooling_enabled
            && c.performance.compression_threshold == 1_000_000,
        c.database_path is None,
        c.logging.level == LogLevel::Info && !c.logging.structured && c.logging.file_path is None
            && c.logging.max_file_size_mb == 100 && c.logging.max_files == 5,
        c.network.bind_address@ == "127.0.0.1"@ && c.network.port == 8080 && c.network.max_connections == 1000
            && c.network.keep_alive,
        nanos(c.network.connection_timeout) == 30_000_000_000 && nanos(c.network.read_timeout) == 30_000_000_000
            && nanos(c.network.write_timeout) == 30_000_000_000,
        !c.security.enable_auth && !c.security.enable_tls && c.security.cert_path is None && c.security.key_path is None
            && nanos(c.security.auth_token_ttl) == 3_600_000_000_000 && c.security.rate_limit_requests_per_minute == 1000,
        c.security.allowed_origins@.len() == 1 && c.security.allowed_origins@[0]@ == "*"@,
{
}

/// In what the settings for development, production and tests differ from the usual ones.
pub proof fn settings_at_hand(dev: DaggerConfig, prod: DaggerConfig, tests: DaggerConfig)
    requires
        call_ensures(DaggerConfig::development, (), dev),
        call_ensures(DaggerConfig::production, (), prod),
        call_ensures(DaggerConfig::testing, (), tests),
    ensures
        dev.cache.max_memory_bytes == 52_428_800 && prod.cache.max_memory_bytes == 524_288_000
            && tests.cache.max_memory_bytes == 10_485_760,
        dev.cache.max_entries == 1_000 && prod.cache.max_entries == 100_000 && tests.cache.max_entries == 100,
        nanos(dev.cache.cleanup_interval) == 60_000_000_000 && nanos(prod.cache.cleanup_interval) == 30_000_000_000 && nanos(
            tests.cache.cleanup_interval,
        ) == 10_000_000_000,
        nanos(dev.cache.ttl) == 3_600_000_000_000 && nanos(prod.cache.ttl) == 3_600_000_000_000 && nanos(tests.cache.ttl)
            == 60_000_000_000,
        dev.limits.max_memory_bytes == 100_000_000 && dev.limits.max_concurrent_tasks == 10 && dev.limits.max_task_retries == 3,
        prod.limits.max_memory_bytes == 1_000_000_000 && prod.limits.max_concurrent_tasks == 100
            && prod.limits.max_task_retries == 5,
        tests.limits.max_memory_bytes == 100_000_000 && tests.limits.max_concurrent_tasks == 10
            && tests.limits.max_task_retries == 3,
        dev.performance.async_serialization_threshold == 50_000 && prod.performance.async_serialization_threshold == 100_000
            && tests.performance.async_serialization_threshold == 10_000,
        dev.performance.database_batch_size == 50 && prod.performance.database_batch_size == 100
            && tests.performance.database_batch_size == 10,
        dev.performance.connection_pool_size == 5 && prod.performance.connection_pool_size == 10
            && tests.performance.connection_pool_size == 2,
        nanos(dev.performance.background_task_interval) == 60_000_000_000 && nanos(
            prod.performance.background_task_interval,
        ) == 30_000_000_000 && nanos(tests.performance.background_task_interval) == 5_000_000_000,
        dev.logging.level == LogLevel::Debug && prod.logging.level == LogLevel::Info && tests.logging.level == LogLevel::Trace,
        !dev.logging.structured && prod.logging.structured && !tests.logging.structured,
        !dev.security.enable_auth && prod.security.enable_auth && !tests.security.enable_auth,
        dev.network.port == 8080 && prod.network.port == 8080 && tests.network.port == 8080,
        dev.database_path is None && prod.database_path is None && tests.database_path is None,
{
}

/// A builder gives the settings that it holds, and only where they are in order.
pub proof fn built_settings_are_in_order(
    b: DaggerBuilder,
    checked: Result<(), DaggerError>,
    r: Result<DaggerConfig, DaggerError>,
    unchecked: DaggerConfig,
)
    requires
        call_ensures(DaggerConfig::validate, (&b.config,), checked),
        call_ensures(DaggerBuilder::build, (b,), r),
        call_ensures(DaggerBuilder::build_unchecked, (b,), unchecked),
    ensures
        r is Ok <==> checked is Ok,
        r matches Ok(c) ==> c == b.config,
        unchecked == b.config,
        (checked matches Err(DaggerError::Configuration { message: m, .. }) ==> (r matches Err(
            DaggerError::Configuration { message, .. },
        ) && message@ == m@)),
{
}

/// A size in larger units is so many bytes.
pub proof fn units_are_bytes(
    c: CacheConfigBuilder,
    l: ResourceLimitsBuilder,
    p: PerformanceConfigBuilder,
    n: usize,
    g: u64,
    rc: CacheConfigBuilder,
    rl: ResourceLimitsBuilder,
    rm: ResourceLimitsBuilder,
    rk: PerformanceConfigBuilder,
    rp: PerformanceConfigBuilder,
)
    requires
        n * 1_048_576 <= usize::MAX,
        g * 1_073_741_824 <= u64::MAX,
        call_ensures(CacheConfigBuilder::max_memory_mb, (c, n), rc),
        call_ensures(ResourceLimitsBuilder::max_memory_gb, (l, g), rl),
        call_ensures(ResourceLimitsBuilder::max_message_size_mb, (l, n), rm),
        call_ensures(PerformanceConfigBuilder::async_serialization_threshold_kb, (p, n), rk),
        call_ensures(PerformanceConfigBuilder::compression_threshold_mb, (p, n), rp),
    ensures
        rc.config.max_memory_bytes == n * 1024 * 1024 && rc.config.max_entries == c.config.max_entries,
        rl.limits.max_memory_bytes == g * 1024 * 1024 * 1024 && rl.limits.max_concurrent_tasks == l.limits.max_concurrent_tasks,
        rm.limits.max_message_size_bytes == n * 1024 * 1024 && rm.limits.max_memory_bytes == l.limits.max_memory_bytes,
        rk.config.async_serialization_threshold == n * 1024 && rk.config.compression_threshold == p.config.compression_threshold,
        rp.config.compression_threshold == n * 1024 * 1024 && rp.config.async_serialization_threshold
            == p.config.async_serialization_threshold,
{
}

/// The library is made exactly where its settings are in order, and has them; once it starts it
/// has an empty cache, a tracker with its limits and a registry for as many tasks as these allow.
pub proof fn library_is_made_of_its_settings(
    config: DaggerConfig,
    checked: Result<(), DaggerError>,
    r: Result<Dagger, DaggerError>,
    b: DaggerBuilder,
    s: Result<Dagger, DaggerError>,
    d: Dagger,
    started: Result<Dagger, DaggerError>,
)
    requires
        call_ensures(DaggerConfig::validate, (&config,), checked),
        call_ensures(Dagger::new, (config,), r),
        call_ensures(Dagger::from_builder, (b,), s),
        call_ensures(Dagger::initialize, (d,), started),
    ensures
        r is Ok <==> checked is Ok,
        r matches Ok(x) ==> x.settings() == config && x.the_cache() is None && x.the_tracker() is None && x.the_registry() is None,
        b.config == config ==> (s is Ok <==> checked is Ok),
        s matches Ok(x) ==> x.settings() == b.config,
        started matches Ok(x) && x.settings() == d.settings() && (x.the_cache() matches Some(c) && c@.entries.len() == 0 && c@.config
            == d.settings().cache) && (x.the_tracker() matches Some(t) && t.limits() == d.settings().limits) && (
        x.the_registry() matches Some(g) && g@.count == 0 && g@.notifications.permits
            == d.settings().limits.max_concurrent_tasks),
{
}

} // verus!
