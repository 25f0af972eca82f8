//! How the system is doing: alerts, health, history and recommendations.

use crate::dag_flow::tree::Timestamp;
use crate::double::{Double, EIGHTY, HALF, NINETY, ONE_TENTH, THREE_TENTHS, TWO_TENTHS, ZERO};
use crate::duration::nanos;
use crate::limits::{unused, ResourceUsageStats, ResourceUtilization};
use crate::memory::{no_stats, CacheStats};
use crate::performance::OperationMetrics;
use crate::string_map::StringMap;
use crate::text::{cat3, cat5, owned, views};
use std::time::Duration;
use vstd::prelude::*;

verus! {

/// How many tasks there are.
#[derive(Debug)]
pub struct TaskRegistryStats {
    pub total_tasks: u64,
    /// By the name of their status.
    pub tasks_by_status: StringMap<usize>,
    pub notifications_sent: u64,
    pub available_permits: usize,
}

impl TaskRegistryStats {
    /// How many tasks have a status.
    pub open spec fn with_status(&self, status: Seq<char>) -> usize {
        if self.tasks_by_status@.contains_key(status) {
            self.tasks_by_status@[status]
        } else {
            0
        }
    }

    fn count(&self, status: &str) -> (r: usize)
        ensures
            r == self.with_status(status@),
    {
        match self.tasks_by_status.get(status) {
            Some(n) => *n,
            None => 0,
        }
    }

    /// How many tasks failed and how many were completed.
    pub fn failed_and_completed(&self) -> (r: (usize, usize))
        ensures
            r.0 == self.with_status("Failed"@),
            r.1 == self.with_status("Completed"@),
    {
        (self.count("Failed"), self.count("Completed"))
    }
}

/// How well something is doing.
#[derive(Debug, Clone, Copy, PartialEq, Eq, Structural)]
pub enum HealthStatus {
    Healthy,
    Warning,
    Critical,
    Unknown,
}

impl HealthStatus {
    /// How bad it is.
    pub open spec fn badness(self) -> int {
        match self {
            HealthStatus::Critical => 3,
            HealthStatus::Warning => 2,
            HealthStatus::Healthy => 1,
            HealthStatus::Unknown => 0,
        }
    }

    fn weight(self) -> (r: u8)
        ensures
            r == self.badness(),
    {
        match self {
            HealthStatus::Critical => 3,
            HealthStatus::Warning => 2,
            HealthStatus::Healthy => 1,
            HealthStatus::Unknown => 0,
        }
    }

    /// The worse of two.
    pub open spec fn worse(self, other: HealthStatus) -> HealthStatus {
        if other.badness() > self.badness() {
            other
        } else {
            self
        }
    }

    fn max(self, other: HealthStatus) -> (r: HealthStatus)
        ensures
            r == self.worse(other),
    {
        if other.weight() > self.weight() {
            other
        } else {
            self
        }
    }
}

/// How well the system is doing.
#[derive(Debug, Clone, Copy, PartialEq, Eq, Structural)]
pub struct SystemHealth {
    pub overall_status: HealthStatus,
    pub memory_health: HealthStatus,
    pub cpu_health: HealthStatus,
    pub task_health: HealthStatus,
    pub cache_health: HealthStatus,
    pub performance_health: HealthStatus,
}

/// How urgent an alert is.
#[derive(Debug, Clone, Copy, PartialEq, Eq, PartialOrd, Structural)]
pub enum AlertLevel {
    Info,
    Warning,
    Error,
    Critical,
}

/// Something that somebody should know.
#[derive(Debug)]
pub struct Alert {
    pub level: AlertLevel,
    pub component: String,
    pub message: String,
    pub timestamp: Timestamp,
    pub details: Option<StringMap<String>>,
}

/// What an [`Alert`] says.
#[verifier::ext_equal]
pub struct AlertView {
    pub level: AlertLevel,
    pub component: Seq<char>,
    pub message: Seq<char>,
    pub timestamp: Timestamp,
    pub plain: bool,
}

impl View for Alert {
    type V = AlertView;

    open spec fn view(&self) -> AlertView {
        AlertView {
            level: self.level,
            component: self.component@,
            message: self.message@,
            timestamp: self.timestamp,
            plain: self.details is None,
        }
    }
}

/// What a list of alerts says.
pub open spec fn alert_views(v: Seq<Alert>) -> Seq<AlertView> {
    Seq::new(v.len(), |i: int| v[i]@)
}

/// The timings of an operation, the rate at which it fails, and both as they are shown.
#[derive(Debug)]
pub struct OperationReading {
    pub metrics: OperationMetrics,
    pub p95_text: String,
    pub error_rate: Double,
    /// In percent.
    pub error_percent: String,
}

/// What was measured, with the ratios and texts that go with it.
#[derive(Debug)]
pub struct Readings {
    pub resource_usage: ResourceUsageStats,
    pub resource_utilization: ResourceUtilization,
    pub memory_percent: String,
    pub cache_stats: CacheStats,
    pub hit_ratio: Double,
    /// In percent.
    pub hit_percent: String,
    pub operations: Vec<OperationReading>,
    /// Over all operations.
    pub average_error_rate: Double,
    pub task_stats: TaskRegistryStats,
    pub failure_rate: Double,
}

fn alert(level: AlertLevel, component: &str, message: String, timestamp: Timestamp) -> (r: Alert)
    ensures
        r@ == (AlertView { level, component: component@, message: message@, timestamp, plain: true }),
{
    Alert { level, component: owned(component), message, timestamp, details: None }
}

/// What is said of the memory.
pub open spec fn memory_alerts(r: Readings, at: Timestamp) -> Seq<AlertView> {
    let u = r.resource_utilization.memory_utilization;
    if (Double { bits: NINETY }).below(u) {
        seq![
            AlertView {
                level: AlertLevel::Critical,
                component: "memory"@,
                message: "Memory usage critical: "@ + r.memory_percent@ + "%"@,
                timestamp: at,
                plain: true,
            },
        ]
    } else if (Double { bits: EIGHTY }).below(u) {
        seq![
            AlertView {
                level: AlertLevel::Warning,
                component: "memory"@,
                message: "Memory usage high: "@ + r.memory_percent@ + "%"@,
                timestamp: at,
                plain: true,
            },
        ]
    } else {
        Seq::empty()
    }
}

/// What is said of the cache: that less than half of more than a hundred look-ups found
/// something.
pub open spec fn cache_alerts(r: Readings, at: Timestamp) -> Seq<AlertView> {
    if r.hit_ratio.below(Double { bits: HALF }) && r.cache_stats.hit_count + r.cache_stats.miss_count > 100 {
        seq![
            AlertView {
                level: AlertLevel::Warning,
                component: "cache"@,
                message: "Low cache hit ratio: "@ + r.hit_percent@ + "%"@,
                timestamp: at,
                plain: true,
            },
        ]
    } else {
        Seq::empty()
    }
}

/// What is said of an operation: that it is slow, and that it fails often.
pub open spec fn operation_alerts(o: OperationReading, at: Timestamp) -> Seq<AlertView> {
    (if nanos(o.metrics.p95_duration) > 5_000_000_000 {
        seq![
            AlertView {
                level: AlertLevel::Warning,
                component: "performance"@,
                message: "Slow operation '"@ + o.metrics.operation@ + "': p95="@ + o.p95_text@,
                timestamp: at,
                plain: true,
            },
        ]
    } else {
        Seq::empty()
    }) + (if (Double { bits: ONE_TENTH }).below(o.error_rate) {
        seq![
            AlertView {
                level: AlertLevel::Error,
                component: "performance"@,
                message: "High error rate for '"@ + o.metrics.operation@ + "': "@ + o.error_percent@ + "%"@,
                timestamp: at,
                plain: true,
            },
        ]
    } else {
        Seq::empty()
    })
}

/// What is said of the first `n` operations.
pub open spec fn operations_alerts(v: Seq<OperationReading>, at: Timestamp, n: int) -> Seq<AlertView>
    decreases n,
{
    if n <= 0 {
        Seq::empty()
    } else {
        operations_alerts(v, at, n - 1) + operation_alerts(v[n - 1], at)
    }
}

/// All that is said.
pub open spec fn all_alerts(r: Readings, at: Timestamp) -> Seq<AlertView> {
    memory_alerts(r, at) + cache_alerts(r, at) + operations_alerts(r.operations@, at, r.operations@.len() as int)
}

fn push_alert(v: &mut Vec<Alert>, a: Alert)
    ensures
        alert_views(final(v)@) == alert_views(old(v)@).push(a@),
{
    let ghost view = a@;
    v.push(a);
    proof {
        assert(alert_views(v@) =~= alert_views(old(v)@).push(view));
    }
}

/// The alerts that follow from what was measured at `timestamp`.
pub fn collect_alerts(readings: &Readings, timestamp: Timestamp) -> (r: Vec<Alert>)
    requires
        readings.cache_stats.hit_count + readings.cache_stats.miss_count <= u64::MAX,
    ensures
        alert_views(r@) == all_alerts(*readings, timestamp),
{
    let mut r: Vec<Alert> = Vec::new();
    proof {
        assert(alert_views(r@) =~= Seq::<AlertView>::empty());
    }
    let memory: Double = readings.resource_utilization.memory_utilization;
    if (Double { bits: NINETY }).lt(memory) {
        push_alert(
            &mut r,
            alert(
                AlertLevel::Critical,
                "memory",
                cat3("Memory usage critical: ", readings.memory_percent.as_str(), "%"),
                timestamp,
            ),
        );
    } else if (Double { bits: EIGHTY }).lt(memory) {
        push_alert(
            &mut r,
            alert(
                AlertLevel::Warning,
                "memory",
                cat3("Memory usage high: ", readings.memory_percent.as_str(), "%"),
                timestamp,
            ),
        );
    }
    proof {
        assert(alert_views(r@) =~= memory_alerts(*readings, timestamp));
    }
    if readings.hit_ratio.lt(Double { bits: HALF }) && readings.cache_stats.hit_count + readings.cache_stats.miss_count > 100 {
        push_alert(
            &mut r,
            alert(
                AlertLevel::Warning,
                "cache",
                cat3("Low cache hit ratio: ", readings.hit_percent.as_str(), "%"),
                timestamp,
            ),
        );
    }
    let ghost base = memory_alerts(*readings, timestamp) + cache_alerts(*readings, timestamp);
    let mut i: usize = 0;
    proof {
        assert(alert_views(r@) =~= base);
        assert(base + operations_alerts(readings.operations@, timestamp, 0) =~= base);
    }
    while i < readings.operations.len()
        invariant
            i <= readings.operations@.len(),
            alert_views(r@) == base + operations_alerts(readings.operations@, timestamp, i as int),
        decreases readings.operations.len() - i,
    {
        let o = &readings.operations[i];
        let ghost before = alert_views(r@);
        let five = Duration::from_secs(5);
        if o.metrics.p95_duration.as_nanos() > five.as_nanos() {
            let mut message = cat3("Slow operation '", o.metrics.operation.as_str(), "': p95=");
            message.append(o.p95_text.as_str());
            push_alert(&mut r, alert(AlertLevel::Warning, "performance", message, timestamp));
        }
        if (Double { bits: ONE_TENTH }).lt(o.error_rate) {
            push_alert(
                &mut r,
                alert(
                    AlertLevel::Error,
                    "performance",
                    cat5(
                        "High error rate for '",
                        o.metrics.operation.as_str(),
                        "': ",
                        o.error_percent.as_str(),
                        "%",
                    ),
                    timestamp,
                ),
            );
        }
        proof {
            assert(alert_views(r@) =~= before + operation_alerts(*o, timestamp));
            assert(before + operation_alerts(*o, timestamp) =~= base + (operations_alerts(
                readings.operations@,
                timestamp,
                i as int,
            ) + operation_alerts(*o, timestamp)));
        }
        i = i + 1;
    }
    r
}

/// The health of something of which more is worse.
pub open spec fn rising(value: Double, warning: u64, critical: u64) -> HealthStatus {
    if (Double { bits: critical }).below(value) {
        HealthStatus::Critical
    } else if (Double { bits: warning }).below(value) {
        HealthStatus::Warning
    } else {
        HealthStatus::Healthy
    }
}

/// The health of something of which less is worse.
pub open spec fn falling(value: Double, warning: u64, critical: u64) -> HealthStatus {
    if value.below(Double { bits: critical }) {
        HealthStatus::Critical
    } else if value.below(Double { bits: warning }) {
        HealthStatus::Warning
    } else {
        HealthStatus::Healthy
    }
}

fn judge_rising(value: Double, warning: u64, critical: u64) -> (r: HealthStatus)
    ensures
        r == rising(value, warning, critical),
{
    if (Double { bits: critical }).lt(value) {
        HealthStatus::Critical
    } else if (Double { bits: warning }).lt(value) {
        HealthStatus::Warning
    } else {
        HealthStatus::Healthy
    }
}

fn judge_falling(value: Double, warning: u64, critical: u64) -> (r: HealthStatus)
    ensures
        r == falling(value, warning, critical),
{
    if value.lt(Double { bits: critical }) {
        HealthStatus::Critical
    } else if value.lt(Double { bits: warning }) {
        HealthStatus::Warning
    } else {
        HealthStatus::Healthy
    }
}

/// How well the system is doing: as badly as the worst of its parts.
pub open spec fn health(r: Readings) -> SystemHealth {
    let memory = rising(r.resource_utilization.memory_utilization, EIGHTY, NINETY);
    let cpu = rising(r.resource_utilization.task_utilization, EIGHTY, NINETY);
    let task = rising(r.failure_rate, ONE_TENTH, TWO_TENTHS);
    let cache = falling(r.hit_ratio, HALF, THREE_TENTHS);
    let performance = rising(r.average_error_rate, ONE_TENTH, TWO_TENTHS);
    SystemHealth {
        overall_status: memory.worse(cpu).worse(task).worse(cache).worse(performance),
        memory_health: memory,
        cpu_health: cpu,
        task_health: task,
        cache_health: cache,
        performance_health: performance,
    }
}

/// How well the system is doing.
pub fn calculate_health_status(readings: &Readings) -> (r: SystemHealth)
    ensures
        r == health(*readings),
{
    let memory_health = judge_rising(readings.resource_utilization.memory_utilization, EIGHTY, NINETY);
    let cpu_health = judge_rising(readings.resource_utilization.task_utilization, EIGHTY, NINETY);
    let task_health = judge_rising(readings.failure_rate, ONE_TENTH, TWO_TENTHS);
    let cache_health = judge_falling(readings.hit_ratio, HALF, THREE_TENTHS);
    let performance_health = judge_rising(readings.average_error_rate, ONE_TENTH, TWO_TENTHS);
    SystemHealth {
        overall_status: memory_health.max(cpu_health).max(task_health).max(cache_health).max(performance_health),
        memory_health,
        cpu_health,
        task_health,
        cache_health,
        performance_health,
    }
}

/// No part is doing worse than the system as a whole, and some part as badly.
pub proof fn overall_health_is_the_worst(r: Readings)
    ensures
        ({
            let h = health(r);
            let worst = h.overall_status.badness();
            &&& h.memory_health.badness() <= worst
            &&& h.cpu_health.badness() <= worst
            &&& h.task_health.badness() <= worst
            &&& h.cache_health.badness() <= worst
            &&& h.performance_health.badness() <= worst
            &&& h.overall_status == h.memory_health || h.overall_status == h.cpu_health || h.overall_status
                == h.task_health || h.overall_status == h.cache_health || h.overall_status == h.performance_health
        }),
{
}

/// Memory of which an alert is critical is in critical health, and the other way round.
pub proof fn alert_and_health_agree(r: Readings, at: Timestamp)
    ensures
        health(r).memory_health == HealthStatus::Healthy <==> memory_alerts(r, at).len() == 0,
        health(r).memory_health == HealthStatus::Critical <==> memory_alerts(r, at).len() == 1 && memory_alerts(r, at)[0].level
            == AlertLevel::Critical,
{
}

/// How the system was doing at some time.
#[derive(Debug)]
pub struct SystemSnapshot {
    pub timestamp: Timestamp,
    pub readings: Readings,
    pub health_status: SystemHealth,
    pub alerts: Vec<Alert>,
}

/// How the system is doing, from what was measured at `timestamp`.
pub fn collect_metrics(readings: Readings, timestamp: Timestamp) -> (r: SystemSnapshot)
    requires
        readings.cache_stats.hit_count + readings.cache_stats.miss_count <= u64::MAX,
    ensures
        r.timestamp == timestamp,
        r.readings == readings,
        r.health_status == health(readings),
        alert_views(r.alerts@) == all_alerts(readings, timestamp),
{
    let alerts = collect_alerts(&readings, timestamp);
    let health_status = calculate_health_status(&readings);
    SystemSnapshot { timestamp, readings, health_status, alerts }
}

/// A snapshot where nothing could be measured.
pub fn unknown_snapshot(timestamp: Timestamp) -> (r: SystemSnapshot)
    ensures
        r.timestamp == timestamp,
        r.readings.resource_usage == unused(),
        r.readings.cache_stats == no_stats(),
        r.readings.operations@.len() == 0,
        r.readings.task_stats.total_tasks == 0,
        r.readings.task_stats.tasks_by_status@ == Map::<Seq<char>, usize>::empty(),
        r.readings.task_stats.available_permits == 0,
        r.readings.resource_utilization.highest() == (Double { bits: ZERO }),
        r.readings.hit_ratio.bits == ZERO,
        r.health_status == (SystemHealth {
            overall_status: HealthStatus::Unknown,
            memory_health: HealthStatus::Unknown,
            cpu_health: HealthStatus::Unknown,
            task_health: HealthStatus::Unknown,
            cache_health: HealthStatus::Unknown,
            performance_health: HealthStatus::Unknown,
        }),
        r.alerts@.len() == 0,
{
    let zero = Double { bits: ZERO };
    let unknown = HealthStatus::Unknown;
    SystemSnapshot {
        timestamp,
        readings: Readings {
            resource_usage: ResourceUsageStats {
                memory_usage: 0,
                concurrent_tasks: 0,
                execution_tree_nodes: 0,
                cache_entries: 0,
                file_handles: 0,
                network_connections: 0,
                peak_memory_usage: 0,
                peak_concurrent_tasks: 0,
                total_tasks_executed: 0,
                total_limit_violations: 0,
            },
            resource_utilization: ResourceUtilization {
                memory_utilization: zero,
                task_utilization: zero,
                tree_utilization: zero,
                cache_utilization: zero,
                file_utilization: zero,
                network_utilization: zero,
            },
            memory_percent: owned("0.0"),
            cache_stats: CacheStats::new(),
            hit_ratio: zero,
            hit_percent: owned("0.0"),
            operations: Vec::new(),
            average_error_rate: zero,
            task_stats: TaskRegistryStats {
                total_tasks: 0,
                tasks_by_status: StringMap::new(),
                notifications_sent: 0,
                available_permits: 0,
            },
            failure_rate: zero,
        },
        health_status: SystemHealth {
            overall_status: unknown,
            memory_health: unknown,
            cpu_health: unknown,
            task_health: unknown,
            cache_health: unknown,
            performance_health: unknown,
        },
        alerts: Vec::new(),
    }
}

/// The history after one more snapshot: the oldest go where there are too many.
pub open spec fn kept<S>(history: Seq<S>, snapshot: S, most: usize) -> Seq<S> {
    let all = history.push(snapshot);
    if all.len() > most {
        all.skip(all.len() - most)
    } else {
        all
    }
}

/// Adds a snapshot to the history; the oldest go where there are too many.
pub fn store_snapshot<S>(history: &mut Vec<S>, snapshot: S, most: usize)
    ensures
        final(history)@ == kept(old(history)@, snapshot, most),
        final(history)@.len() <= most || final(history)@.len() == old(history)@.len() + 1,
{
    history.push(snapshot);
    let ghost all = history@;
    let ghost mut gone: int = 0;
    proof {
        assert(all.skip(0) =~= all);
    }
    while history.len() > most
        invariant
            0 <= gone <= all.len(),
            history@ == all.skip(gone),
            gone > 0 ==> all.len() - gone >= most,
            all.len() <= most ==> gone == 0,
        decreases history.len(),
    {
        history.remove(0);
        proof {
            assert(history@ =~= all.skip(gone + 1));
            gone = gone + 1;
        }
    }
}

/// Whether `a` is later than `b`.
pub open spec fn later(a: Timestamp, b: Timestamp) -> bool {
    a.secs > b.secs || (a.secs == b.secs && a.nanos > b.nanos)
}

/// The positions of the snapshots after `cutoff`, among the first `n`.
pub open spec fn recent(history: Seq<SystemSnapshot>, cutoff: Timestamp, n: int) -> Seq<usize>
    decreases n,
{
    if n <= 0 {
        Seq::empty()
    } else if later(history[n - 1].timestamp, cutoff) {
        recent(history, cutoff, n - 1).push((n - 1) as usize)
    } else {
        recent(history, cutoff, n - 1)
    }
}

/// The positions of the snapshots after `cutoff`, in order.
pub fn get_history(history: &Vec<SystemSnapshot>, cutoff: Timestamp) -> (r: Vec<usize>)
    ensures
        r@ == recent(history@, cutoff, history@.len() as int),
{
    let mut r: Vec<usize> = Vec::new();
    let mut i: usize = 0;
    while i < history.len()
        invariant
            i <= history@.len(),
            r@ == recent(history@, cutoff, i as int),
        decreases history.len() - i,
    {
        let t: Timestamp = history[i].timestamp;
        if t.secs > cutoff.secs || (t.secs == cutoff.secs && t.nanos > cutoff.nanos) {
            r.push(i);
        }
        i = i + 1;
    }
    r
}

/// The memory that was in use in the snapshots at the first `n` of `at`, together.
pub open spec fn memory_sum(history: Seq<SystemSnapshot>, at: Seq<usize>, n: int) -> nat
    decreases n,
{
    if n <= 0 {
        0
    } else {
        memory_sum(history, at, n - 1) + history[at[n - 1] as int].readings.resource_usage.memory_usage as nat
    }
}

/// How often the first `n` operations failed, together.
pub open spec fn error_sum(v: Seq<OperationReading>, n: int) -> nat
    decreases n,
{
    if n <= 0 {
        0
    } else {
        error_sum(v, n - 1) + v[n - 1].metrics.error_count as nat
    }
}

/// How many of the first `n` alerts are critical.
pub open spec fn critical_count(v: Seq<Alert>, n: int) -> nat
    decreases n,
{
    if n <= 0 {
        0
    } else if v[n - 1].level == AlertLevel::Critical {
        critical_count(v, n - 1) + 1
    } else {
        critical_count(v, n - 1)
    }
}

/// What a snapshot and the recent history come to.
#[derive(Debug, Clone, Copy, PartialEq, Eq, Structural)]
pub struct SystemSummary {
    pub total_tasks_executed: u64,
    pub average_memory_usage: u64,
    pub peak_memory_usage: u64,
    pub average_cache_hit_ratio: Double,
    pub total_errors: u64,
    pub alert_count: usize,
    pub critical_alerts: usize,
}

/// Whether `r` is what a snapshot and the snapshots at `at` of the history come to.
pub open spec fn sums_up(
    r: SystemSummary,
    current: SystemSnapshot,
    history: Seq<SystemSnapshot>,
    at: Seq<usize>,
    average_hit_ratio: Double,
) -> bool {
    &&& r.total_tasks_executed == current.readings.resource_usage.total_tasks_executed
    &&& r.peak_memory_usage == current.readings.resource_usage.peak_memory_usage
    &&& r.average_memory_usage == (if at.len() > 0 {
        memory_sum(history, at, at.len() as int) / at.len()
    } else {
        current.readings.resource_usage.memory_usage as nat
    })
    &&& r.average_cache_hit_ratio == (if at.len() > 0 {
        average_hit_ratio
    } else {
        current.readings.hit_ratio
    })
    &&& r.total_errors == error_sum(current.readings.operations@, current.readings.operations@.len() as int)
    &&& r.alert_count == current.alerts@.len()
    &&& r.critical_alerts == critical_count(current.alerts@, current.alerts@.len() as int)
}

/// What a snapshot and the snapshots at `at` of the history come to. `average_hit_ratio` is
/// that of those snapshots; it is left aside where there are none.
pub fn generate_summary(
    current: &SystemSnapshot,
    history: &Vec<SystemSnapshot>,
    at: &Vec<usize>,
    average_hit_ratio: Double,
) -> (r: SystemSummary)
    requires
        forall|i: int| 0 <= i < at@.len() ==> (#[trigger] at@[i]) < history@.len(),
        memory_sum(history@, at@, at@.len() as int) <= u64::MAX,
        error_sum(current.readings.operations@, current.readings.operations@.len() as int) <= u64::MAX,
    ensures
        sums_up(r, *current, history@, at@, average_hit_ratio),
{
    let mut memory: u64 = 0;
    let mut i: usize = 0;
    while i < at.len()
        invariant
            i <= at@.len(),
            forall|j: int| 0 <= j < at@.len() ==> (#[trigger] at@[j]) < history@.len(),
            memory == memory_sum(history@, at@, i as int),
            memory_sum(history@, at@, at@.len() as int) <= u64::MAX,
        decreases at.len() - i,
    {
        proof {
            lemma_memory_grows(history@, at@, i + 1, at@.len() as int);
        }
        memory = memory + history[at[i]].readings.resource_usage.memory_usage;
        i = i + 1;
    }
    let operations = &current.readings.operations;
    let mut errors: u64 = 0;
    let mut j: usize = 0;
    while j < operations.len()
        invariant
            j <= operations@.len(),
            errors == error_sum(operations@, j as int),
            error_sum(operations@, operations@.len() as int) <= u64::MAX,
        decreases operations.len() - j,
    {
        proof {
            lemma_errors_grow(operations@, j + 1, operations@.len() as int);
        }
        errors = errors + operations[j].metrics.error_count;
        j = j + 1;
    }
    let mut critical: usize = 0;
    let mut k: usize = 0;
    while k < current.alerts.len()
        invariant
            k <= current.alerts@.len(),
            critical <= k,
            critical == critical_count(current.alerts@, k as int),
        decreases current.alerts.len() - k,
    {
        if current.alerts[k].level == AlertLevel::Critical {
            critical = critical + 1;
        }
        k = k + 1;
    }
    let n: usize = at.len();
    SystemSummary {
        total_tasks_executed: current.readings.resource_usage.total_tasks_executed,
        average_memory_usage: if n > 0 {
            memory / n as u64
        } else {
            current.readings.resource_usage.memory_usage
        },
        peak_memory_usage: current.readings.resource_usage.peak_memory_usage,
        average_cache_hit_ratio: if n > 0 {
            average_hit_ratio
        } else {
            current.readings.hit_ratio
        },
        total_errors: errors,
        alert_count: current.alerts.len(),
        critical_alerts: critical,
    }
}

proof fn lemma_memory_grows(history: Seq<SystemSnapshot>, at: Seq<usize>, m: int, n: int)
    requires
        0 <= m <= n,
    ensures
        memory_sum(history, at, m) <= memory_sum(history, at, n),
    decreases n,
{
    if m < n {
        lemma_memory_grows(history, at, m, n - 1);
    }
}

proof fn lemma_errors_grow(v: Seq<OperationReading>, m: int, n: int)
    requires
        0 <= m <= n,
    ensures
        error_sum(v, m) <= error_sum(v, n),
    decreases n,
{
    if m < n {
        lemma_errors_grow(v, m, n - 1);
    }
}

/// What is recommended for an operation.
pub open spec fn operation_advice(o: OperationReading) -> Seq<Seq<char>> {
    (if (Double { bits: ONE_TENTH }).below(o.error_rate) {
        seq![
            "High error rate for operation '"@ + o.metrics.operation@ + "'. Review error logs and retry policies"@,
        ]
    } else {
        Seq::empty()
    }) + (if nanos(o.metrics.p95_duration) > 10_000_000_000 {
        seq![
            "Slow performance for operation '"@ + o.metrics.operation@
                + "'. Consider optimization or timeout adjustment"@,
        ]
    } else {
        Seq::empty()
    })
}

/// What is recommended for the first `n` operations.
pub open spec fn operations_advice(v: Seq<OperationReading>, n: int) -> Seq<Seq<char>>
    decreases n,
{
    if n <= 0 {
        Seq::empty()
    } else {
        operations_advice(v, n - 1) + operation_advice(v[n - 1])
    }
}

/// What is recommended for memory and cache.
pub open spec fn storage_advice(r: Readings) -> Seq<Seq<char>> {
    (if (Double { bits: EIGHTY }).below(r.resource_utilization.memory_utilization) {
        seq!["Consider increasing memory limits or optimizing memory usage"@]
    } else {
        Seq::empty()
    }) + (if r.hit_ratio.below(Double { bits: HALF }) {
        seq!["Low cache hit ratio detected. Consider reviewing cache configuration or access patterns"@]
    } else {
        Seq::empty()
    })
}

/// All that is recommended.
pub open spec fn advice(r: Readings) -> Seq<Seq<char>> {
    storage_advice(r) + operations_advice(r.operations@, r.operations@.len() as int) + (
    if r.task_stats.available_permits == 0 {
        seq!["Task execution at capacity. Consider increasing concurrent task limits"@]
    } else {
        Seq::empty()
    })
}

fn push_text(v: &mut Vec<String>, s: String)
    ensures
        views(final(v)@) == views(old(v)@).push(s@),
{
    let ghost view = s@;
    v.push(s);
    proof {
        assert(views(v@) =~= views(old(v)@).push(view));
    }
}

/// What is recommended, from what was measured.
pub fn generate_recommendations(readings: &Readings) -> (r: Vec<String>)
    ensures
        views(r@) == advice(*readings),
{
    let mut r: Vec<String> = Vec::new();
    proof {
        assert(views(r@) =~= Seq::<Seq<char>>::empty());
    }
    if (Double { bits: EIGHTY }).lt(readings.resource_utilization.memory_utilization) {
        push_text(&mut r, owned("Consider increasing memory limits or optimizing memory usage"));
    }
    if readings.hit_ratio.lt(Double { bits: HALF }) {
        push_text(
            &mut r,
            owned("Low cache hit ratio detected. Consider reviewing cache configuration or access patterns"),
        );
    }
    let ghost base = storage_advice(*readings);
    let mut i: usize = 0;
    proof {
        assert(views(r@) =~= base);
        assert(base + operations_advice(readings.operations@, 0) =~= base);
    }
    while i < readings.operations.len()
        invariant
            i <= readings.operations@.len(),
            views(r@) == base + operations_advice(readings.operations@, i as int),
        decreases readings.operations.len() - i,
    {
        let o = &readings.operations[i];
        let ghost before = views(r@);
        if (Double { bits: ONE_TENTH }).lt(o.error_rate) {
            push_text(
                &mut r,
                cat3(
                    "High error rate for operation '",
                    o.metrics.operation.as_str(),
                    "'. Review error logs and retry policies",
                ),
            );
        }
        let ten = Duration::from_secs(10);
        if o.metrics.p95_duration.as_nanos() > ten.as_nanos() {
            push_text(
                &mut r,
                cat3(
                    "Slow performance for operation '",
                    o.metrics.operation.as_str(),
                    "'. Consider optimization or timeout adjustment",
                ),
            );
        }
        proof {
            assert(views(r@) =~= before + operation_advice(*o));
            assert(before + operation_advice(*o) =~= base + (operations_advice(readings.operations@, i as int)
                + operation_advice(*o)));
        }
        i = i + 1;
    }
    let ghost before = views(r@);
    if readings.task_stats.available_permits == 0 {
        push_text(&mut r, owned("Task execution at capacity. Consider increasing concurrent task limits"));
    }
    proof {
        assert(views(r@) =~= advice(*readings));
    }
    r
}

/// A snapshot, where it stands in the history, and what follows from both.
#[derive(Debug)]
pub struct SystemReport {
    pub generated_at: Timestamp,
    pub current_snapshot: SystemSnapshot,
    /// Positions in the history.
    pub historical_snapshots: Vec<usize>,
    pub summary: SystemSummary,
    pub recommendations: Vec<String>,
}

/// A report at `generated_at` on a snapshot, or on nothing where there is none, and on the
/// snapshots after `cutoff`, whose average hit ratio is `average_hit_ratio`.
pub fn generate_report(
    current: Option<SystemSnapshot>,
    history: &Vec<SystemSnapshot>,
    cutoff: Timestamp,
    average_hit_ratio: Double,
    generated_at: Timestamp,
) -> (r: SystemReport)
    requires
        memory_sum(
            history@,
            recent(history@, cutoff, history@.len() as int),
            recent(history@, cutoff, history@.len() as int).len() as int,
        ) <= u64::MAX,
        current matches Some(c) ==> error_sum(c.readings.operations@, c.readings.operations@.len() as int) <= u64::MAX,
    ensures
        r.generated_at == generated_at,
        current matches Some(c) ==> r.current_snapshot == c,
        current is None ==> r.current_snapshot.timestamp == generated_at
            && r.current_snapshot.health_status.overall_status == HealthStatus::Unknown
            && r.current_snapshot.readings.resource_usage == unused() && r.current_snapshot.alerts@.len() == 0,
        r.historical_snapshots@ == recent(history@, cutoff, history@.len() as int),
        sums_up(r.summary, r.current_snapshot, history@, r.historical_snapshots@, average_hit_ratio),
        views(r.recommendations@) == advice(r.current_snapshot.readings),
{
    let current_snapshot = match current {
        Some(c) => c,
        None => unknown_snapshot(generated_at),
    };
    let historical_snapshots = get_history(history, cutoff);
    let n: usize = history.len();
    proof {
        lemma_recent(history@, cutoff, n as int);
    }
    let summary = generate_summary(&current_snapshot, history, &historical_snapshots, average_hit_ratio);
    let recommendations = generate_recommendations(&current_snapshot.readings);
    SystemReport { generated_at, current_snapshot, historical_snapshots, summary, recommendations }
}

proof fn lemma_recent(history: Seq<SystemSnapshot>, cutoff: Timestamp, n: int)
    requires
        0 <= n <= history.len() <= usize::MAX,
    ensures
        forall|i: int| 0 <= i < recent(history, cutoff, n).len() ==> (#[trigger] recent(history, cutoff, n)[i]) < n,
    decreases n,
{
    if n > 0 {
        lemma_recent(history, cutoff, n - 1);
        let before = recent(history, cutoff, n - 1);
        assert forall|i: int| 0 <= i < recent(history, cutoff, n).len() implies (#[trigger] recent(history, cutoff, n)[i])
            < n by {
            if i < before.len() {
                assert(recent(history, cutoff, n)[i] == before[i]);
            }
        }
    }
}

/// From which values on alerts are given.
#[derive(Debug, Clone, Copy, PartialEq, Eq, Structural)]
pub struct AlertThresholds {
    pub memory_warning_percent: Double,
    pub memory_critical_percent: Double,
    pub error_rate_warning: Double,
    pub error_rate_critical: Double,
    pub cache_hit_ratio_warning: Double,
    pub cache_hit_ratio_critical: Double,
    pub task_failure_rate_warning: Double,
    pub task_failure_rate_critical: Double,
}

/// The usual thresholds.
pub open spec fn default_thresholds() -> AlertThresholds {
    AlertThresholds {
        memory_warning_percent: Double { bits: EIGHTY },
        memory_critical_percent: Double { bits: NINETY },
        error_rate_warning: Double { bits: ONE_TENTH },
        error_rate_critical: Double { bits: TWO_TENTHS },
        cache_hit_ratio_warning: Double { bits: HALF },
        cache_hit_ratio_critical: Double { bits: THREE_TENTHS },
        task_failure_rate_warning: Double { bits: ONE_TENTH },
        task_failure_rate_critical: Double { bits: TWO_TENTHS },
    }
}

impl Default for AlertThresholds {
    fn default() -> (r: Self)
        ensures
            r == default_thresholds(),
    {
        AlertThresholds {
            memory_warning_percent: Double { bits: EIGHTY },
            memory_critical_percent: Double { bits: NINETY },
            error_rate_warning: Double { bits: ONE_TENTH },
            error_rate_critical: Double { bits: TWO_TENTHS },
            cache_hit_ratio_warning: Double { bits: HALF },
            cache_hit_ratio_critical: Double { bits: THREE_TENTHS },
            task_failure_rate_warning: Double { bits: ONE_TENTH },
            task_failure_rate_critical: Double { bits: TWO_TENTHS },
        }
    }
}

/// How the system is watched.
#[derive(Debug, Clone, Copy)]
pub struct MonitoringConfig {
    pub update_interval: Duration,
    pub max_history_size: usize,
    pub enable_alerts: bool,
    pub alert_thresholds: AlertThresholds,
}

impl Default for MonitoringConfig {
    fn default() -> (r: Self)
        ensures
            nanos(r.update_interval) == 10_000_000_000,
            r.max_history_size == 1000,
            r.enable_alerts,
            r.alert_thresholds == default_thresholds(),
    {
        MonitoringConfig {
            update_interval: Duration::from_secs(10),
            max_history_size: 1000,
            enable_alerts: true,
            alert_thresholds: AlertThresholds::default(),
        }
    }
}

/// Memory beyond 90 percent is critical and beyond 80 percent a warning, and so is the load of
/// tasks; more failures than a fifth are critical and more than a tenth a warning; fewer hits than
/// three tenths are critical and fewer than half a warning.
pub proof fn health_follows_the_readings(r: &Readings, h: SystemHealth)
    requires
        call_ensures(calculate_health_status, (r,), h),
    ensures
        (h.memory_health is Critical) <==> (Double { bits: NINETY }).below(r.resource_utilization.memory_utilization),
        (h.memory_health is Healthy) <==> !(Double { bits: EIGHTY }).below(r.resource_utilization.memory_utilization) && !(Double {
            bits: NINETY,
        }).below(r.resource_utilization.memory_utilization),
        (h.cpu_health is Critical) <==> (Double { bits: NINETY }).below(r.resource_utilization.task_utilization),
        (h.cpu_health is Healthy) <==> !(Double { bits: EIGHTY }).below(r.resource_utilization.task_utilization) && !(Double {
            bits: NINETY,
        }).below(r.resource_utilization.task_utilization),
        (h.task_health is Critical) <==> (Double { bits: TWO_TENTHS }).below(r.failure_rate),
        (h.task_health is Healthy) <==> !(Double { bits: ONE_TENTH }).below(r.failure_rate) && !(Double {
            bits: TWO_TENTHS,
        }).below(r.failure_rate),
        (h.cache_health is Critical) <==> r.hit_ratio.below(Double { bits: THREE_TENTHS }),
        (h.cache_health is Healthy) <==> !r.hit_ratio.below(Double { bits: HALF }) && !r.hit_ratio.below(
            Double { bits: THREE_TENTHS },
        ),
        (h.performance_health is Critical) <==> (Double { bits: TWO_TENTHS }).below(r.average_error_rate),
        (h.performance_health is Healthy) <==> !(Double { bits: ONE_TENTH }).below(r.average_error_rate) && !(Double {
            bits: TWO_TENTHS,
        }).below(r.average_error_rate),
        !(h.memory_health is Unknown) && !(h.cpu_health is Unknown) && !(h.task_health is Unknown) && !(
        h.cache_health is Unknown) && !(h.performance_health is Unknown),
        h.overall_status is Critical <==> h.memory_health is Critical || h.cpu_health is Critical || h.task_health is Critical
            || h.cache_health is Critical || h.performance_health is Critical,
        h.overall_status is Healthy <==> h.memory_health is Healthy && h.cpu_health is Healthy && h.task_health is Healthy
            && h.cache_health is Healthy && h.performance_health is Healthy,
{
}

/// Whether an alert with this level, part and text is among `v`.
pub open spec fn says(v: Seq<Alert>, level: AlertLevel, component: Seq<char>, message: Seq<char>) -> bool {
    exists|i: int| 0 <= i < v.len() && (#[trigger] v[i]).level == level && v[i].component@ == component && v[i].message@ == message
}

proof fn lemma_says(v: Seq<Alert>, level: AlertLevel, component: Seq<char>, message: Seq<char>)
    ensures
        says(v, level, component, message) <==> exists|i: int|
            0 <= i < alert_views(v).len() && (#[trigger] alert_views(v)[i]).level == level && alert_views(v)[i].component == component
                && alert_views(v)[i].message == message,
{
    if says(v, level, component, message) {
        let i = choose|i: int|
            0 <= i < v.len() && (#[trigger] v[i]).level == level && v[i].component@ == component && v[i].message@ == message;
        assert(alert_views(v)[i].level == level);
    }
    if exists|i: int|
        0 <= i < alert_views(v).len() && (#[trigger] alert_views(v)[i]).level == level && alert_views(v)[i].component == component
            && alert_views(v)[i].message == message {
        let i = choose|i: int|
            0 <= i < alert_views(v).len() && (#[trigger] alert_views(v)[i]).level == level && alert_views(v)[i].component
                == component && alert_views(v)[i].message == message;
        assert(v[i].level == level);
    }
}

proof fn lemma_alerts_of_operations(v: Seq<OperationReading>, at: Timestamp, n: int, i: int, j: int)
    requires
        0 <= i < n <= v.len(),
        0 <= j < operation_alerts(v[i], at).len(),
    ensures
        operations_alerts(v, at, n).contains(operation_alerts(v[i], at)[j]),
    decreases n,
{
    let all = operations_alerts(v, at, n);
    let before = operations_alerts(v, at, n - 1);
    let own = operation_alerts(v[n - 1], at);
    if i == n - 1 {
        assert(all[before.len() + j] == own[j]);
    } else {
        lemma_alerts_of_operations(v, at, n - 1, i, j);
        let k = choose|k: int| 0 <= k < before.len() && before[k] == operation_alerts(v[i], at)[j];
        assert(all[k] == before[k]);
    }
}

proof fn lemma_parts_of_operations(v: Seq<OperationReading>, at: Timestamp, n: int)
    requires
        0 <= n <= v.len(),
    ensures
        forall|k: int|
            0 <= k < operations_alerts(v, at, n).len() ==> (#[trigger] operations_alerts(v, at, n)[k]).component == "performance"@,
    decreases n,
{
    if n > 0 {
        lemma_parts_of_operations(v, at, n - 1);
        let all = operations_alerts(v, at, n);
        let before = operations_alerts(v, at, n - 1);
        let own = operation_alerts(v[n - 1], at);
        assert forall|k: int| 0 <= k < all.len() implies (#[trigger] all[k]).component == "performance"@ by {
            if k < before.len() {
                assert(all[k] == before[k]);
            } else {
                assert(all[k] == own[k - before.len()]);
            }
        }
    }
}

/// Memory that is nearly used up is told once, and so is a cache that finds little; of each
/// operation it is told that it is slow or fails often, where it is or does.
pub proof fn alerts_tell_what_is_wrong(r: &Readings, at: Timestamp, v: Vec<Alert>, i: int)
    requires
        call_ensures(collect_alerts, (r, at), v),
    ensures
        (Double { bits: NINETY }).below(r.resource_utilization.memory_utilization) ==> says(
            v@,
            AlertLevel::Critical,
            "memory"@,
            "Memory usage critical: "@ + r.memory_percent@ + "%"@,
        ),
        !(Double { bits: NINETY }).below(r.resource_utilization.memory_utilization) && (Double { bits: EIGHTY }).below(
            r.resource_utilization.memory_utilization,
        ) ==> says(v@, AlertLevel::Warning, "memory"@, "Memory usage high: "@ + r.memory_percent@ + "%"@),
        !(Double { bits: NINETY }).below(r.resource_utilization.memory_utilization) && !(Double { bits: EIGHTY }).below(
            r.resource_utilization.memory_utilization,
        ) ==> forall|k: int| 0 <= k < v@.len() ==> (#[trigger] v@[k]).component@ != "memory"@,
        r.hit_ratio.below(Double { bits: HALF }) && r.cache_stats.hit_count + r.cache_stats.miss_count > 100 ==> says(
            v@,
            AlertLevel::Warning,
            "cache"@,
            "Low cache hit ratio: "@ + r.hit_percent@ + "%"@,
        ),
        !(r.hit_ratio.below(Double { bits: HALF }) && r.cache_stats.hit_count + r.cache_stats.miss_count > 100) ==> forall|k: int|
            0 <= k < v@.len() ==> (#[trigger] v@[k]).component@ != "cache"@,
        0 <= i < r.operations@.len() && nanos(r.operations@[i].metrics.p95_duration) > 5_000_000_000 ==> says(
            v@,
            AlertLevel::Warning,
            "performance"@,
            "Slow operation '"@ + r.operations@[i].metrics.operation@ + "': p95="@ + r.operations@[i].p95_text@,
        ),
        0 <= i < r.operations@.len() && (Double { bits: ONE_TENTH }).below(r.operations@[i].error_rate) ==> says(
            v@,
            AlertLevel::Error,
            "performance"@,
            "High error rate for '"@ + r.operations@[i].metrics.operation@ + "': "@ + r.operations@[i].error_percent@ + "%"@,
        ),
        (forall|k: int|
            0 <= k < r.operations@.len() ==> nanos((#[trigger] r.operations@[k]).metrics.p95_duration) <= 5_000_000_000 && !(Double {
                bits: ONE_TENTH,
            }).below(r.operations@[k].error_rate)) ==> forall|k: int|
            0 <= k < v@.len() ==> (#[trigger] v@[k]).component@ != "performance"@,
        forall|k: int| 0 <= k < v@.len() ==> (#[trigger] v@[k]).timestamp == at,
{
    let mem = memory_alerts(*r, at);
    let cache = cache_alerts(*r, at);
    let n = r.operations@.len() as int;
    let ops = operations_alerts(r.operations@, at, n);
    let all = alert_views(v@);
    assert(all == mem + cache + ops);
    assert(all.len() == v@.len());
    reveal_strlit("memory");
    reveal_strlit("cache");
    reveal_strlit("performance");
    assert("memory"@.len() == 6 && "cache"@.len() == 5 && "performance"@.len() == 11);
    lemma_parts_of_operations(r.operations@, at, n);
    lemma_times_of_operations(r.operations@, at, n);
    assert forall|k: int| 0 <= k < v@.len() implies all[k] == (#[trigger] v@[k])@ && (if k < mem.len() {
        all[k] == mem[k] && mem[k].component == "memory"@
    } else if k < mem.len() + cache.len() {
        all[k] == cache[k - mem.len()] && all[k].component == "cache"@
    } else {
        all[k] == ops[k - mem.len() - cache.len()] && all[k].component == "performance"@
    }) && all[k].timestamp == at by {}
    if mem.len() > 0 {
        assert(all[0] == mem[0]);
        assert(v@[0]@ == mem[0]);
    }
    if cache.len() > 0 {
        assert(all[mem.len() as int] == cache[0]);
        assert(v@[mem.len() as int]@ == cache[0]);
    }
    if 0 <= i < n {
        let own = operation_alerts(r.operations@[i], at);
        assert forall|j: int| 0 <= j < own.len() implies says(v@, (#[trigger] own[j]).level, own[j].component, own[j].message) by {
            lemma_alerts_of_operations(r.operations@, at, n, i, j);
            let k = choose|k: int| 0 <= k < ops.len() && ops[k] == own[j];
            assert(all[mem.len() + cache.len() + k] == ops[k]);
            assert(v@[mem.len() + cache.len() + k]@ == own[j]);
        }
        let slow = nanos(r.operations@[i].metrics.p95_duration) > 5_000_000_000;
        let fails = (Double { bits: ONE_TENTH }).below(r.operations@[i].error_rate);
        if slow {
            assert(own[0].level == AlertLevel::Warning);
        }
        if fails {
            assert(own.last().level == AlertLevel::Error);
        }
    }
    if forall|k: int|
        0 <= k < r.operations@.len() ==> nanos((#[trigger] r.operations@[k]).metrics.p95_duration) <= 5_000_000_000 && !(Double {
            bits: ONE_TENTH,
        }).below(r.operations@[k].error_rate) {
        lemma_quiet_operations(r.operations@, at, n);
    }
}

proof fn lemma_times_of_operations(v: Seq<OperationReading>, at: Timestamp, n: int)
    requires
        0 <= n <= v.len(),
    ensures
        forall|k: int| 0 <= k < operations_alerts(v, at, n).len() ==> (#[trigger] operations_alerts(v, at, n)[k]).timestamp == at,
    decreases n,
{
    if n > 0 {
        lemma_times_of_operations(v, at, n - 1);
        let all = operations_alerts(v, at, n);
        let before = operations_alerts(v, at, n - 1);
        let own = operation_alerts(v[n - 1], at);
        assert forall|k: int| 0 <= k < all.len() implies (#[trigger] all[k]).timestamp == at by {
            if k < before.len() {
                assert(all[k] == before[k]);
            } else {
                assert(all[k] == own[k - before.len()]);
            }
        }
    }
}

proof fn lemma_quiet_operations(v: Seq<OperationReading>, at: Timestamp, n: int)
    requires
        0 <= n <= v.len(),
        forall|k: int|
            0 <= k < v.len() ==> nanos((#[trigger] v[k]).metrics.p95_duration) <= 5_000_000_000 && !(Double { bits: ONE_TENTH }).below(
                v[k].error_rate,
            ),
    ensures
        operations_alerts(v, at, n).len() == 0,
    decreases n,
{
    if n > 0 {
        lemma_quiet_operations(v, at, n - 1);
        assert(operation_alerts(v[n - 1], at).len() == 0);
    }
}

/// The newest snapshots are kept, in order, and never more than may be.
pub proof fn newest_snapshots_are_kept<S>(history: &mut Vec<S>, snapshot: S, most: usize)
    requires
        call_ensures(store_snapshot::<S>, (history, snapshot, most), ()),
    ensures
        old(history)@.len() < most ==> final(history)@ == old(history)@.push(snapshot),
        old(history)@.len() >= most ==> final(history)@.len() == most,
        most > 0 ==> final(history)@.last() == snapshot,
        most > 0 && old(history)@.len() >= most ==> final(history)@.drop_last() == old(history)@.skip(
            old(history)@.len() - most + 1,
        ),
{
    if most > 0 && old(history)@.len() >= most {
        let all = old(history)@.push(snapshot);
        assert(all.skip(all.len() - most).drop_last() =~= old(history)@.skip(old(history)@.len() - most + 1));
    }
}

proof fn lemma_recent_exact(history: Seq<SystemSnapshot>, cutoff: Timestamp, n: int, i: int)
    requires
        0 <= n <= history.len() <= usize::MAX,
        0 <= i < history.len(),
    ensures
        recent(history, cutoff, n).contains(i as usize) <==> i < n && later(history[i].timestamp, cutoff),
    decreases n,
{
    if n > 0 {
        lemma_recent_exact(history, cutoff, n - 1, i);
        let before = recent(history, cutoff, n - 1);
        let all = recent(history, cutoff, n);
        if later(history[n - 1].timestamp, cutoff) {
            assert(all[before.len() as int] == n - 1);
            if before.contains(i as usize) {
                let k = choose|k: int| 0 <= k < before.len() && before[k] == i as usize;
                assert(all[k] == before[k]);
            }
        }
    }
}

/// A snapshot belongs to the recent history exactly where its time lies behind the cutoff.
pub proof fn recent_snapshots_are_later(history: &Vec<SystemSnapshot>, cutoff: Timestamp, r: Vec<usize>, i: int)
    requires
        call_ensures(get_history, (history, cutoff), r),
        0 <= i < history@.len(),
        history@.len() <= usize::MAX,
    ensures
        r@.contains(i as usize) <==> history@[i].timestamp.secs > cutoff.secs || (history@[i].timestamp.secs == cutoff.secs
            && history@[i].timestamp.nanos > cutoff.nanos),
{
    lemma_recent_exact(history@, cutoff, history@.len() as int, i);
}

/// A summary counts what the snapshot says.
pub proof fn summary_counts_what_is_there(
    current: &SystemSnapshot,
    history: &Vec<SystemSnapshot>,
    at: &Vec<usize>,
    ratio: Double,
    r: SystemSummary,
)
    requires
        call_ensures(generate_summary, (current, history, at, ratio), r),
    ensures
        r.total_tasks_executed == current.readings.resource_usage.total_tasks_executed,
        r.peak_memory_usage == current.readings.resource_usage.peak_memory_usage,
        at@.len() == 0 ==> r.average_memory_usage == current.readings.resource_usage.memory_usage && r.average_cache_hit_ratio
            == current.readings.hit_ratio,
        at@.len() == 1 ==> r.average_memory_usage == history@[at@[0] as int].readings.resource_usage.memory_usage
            && r.average_cache_hit_ratio == ratio,
        at@.len() == 2 ==> r.average_memory_usage == (history@[at@[0] as int].readings.resource_usage.memory_usage
            + history@[at@[1] as int].readings.resource_usage.memory_usage) / 2,
        r.alert_count == current.alerts@.len(),
        r.critical_alerts == current.alerts@.filter(|a: Alert| a.level is Critical).len(),
        current.readings.operations@.len() == 0 ==> r.total_errors == 0,
        current.readings.operations@.len() == 1 ==> r.total_errors == current.readings.operations@[0].metrics.error_count,
        current.readings.operations@.len() == 2 ==> r.total_errors == current.readings.operations@[0].metrics.error_count
            + current.readings.operations@[1].metrics.error_count,
{
    reveal_with_fuel(memory_sum, 4);
    reveal_with_fuel(error_sum, 4);
    lemma_critical(current.alerts@, current.alerts@.len() as int);
    assert(current.alerts@.take(current.alerts@.len() as int) =~= current.alerts@);
}

proof fn lemma_critical(v: Seq<Alert>, n: int)
    requires
        0 <= n <= v.len(),
    ensures
        critical_count(v, n) == v.take(n).filter(|a: Alert| a.level is Critical).len(),
    decreases n,
{
    reveal(Seq::filter);
    if n > 0 {
        lemma_critical(v, n - 1);
        assert(v.take(n).drop_last() =~= v.take(n - 1));
    }
}

/// More operations add what they failed to what failed before, and more snapshots the memory
/// that they used.
pub proof fn sums_grow_by_what_is_added(v: Seq<OperationReading>, history: Seq<SystemSnapshot>, at: Seq<usize>, n: int)
    requires
        n > 0,
    ensures
        error_sum(v, n) == error_sum(v, n - 1) + v[n - 1].metrics.error_count,
        memory_sum(history, at, n) == memory_sum(history, at, n - 1)
            + history[at[n - 1] as int].readings.resource_usage.memory_usage,
{
}

/// Whether something is recommended.
pub open spec fn recommends_to(v: Seq<String>, text: Seq<char>) -> bool {
    views(v).contains(text)
}

/// What is recommended follows from what was measured.
pub proof fn recommendations_follow_the_readings(r: &Readings, v: Vec<String>, i: int)
    requires
        call_ensures(generate_recommendations, (r,), v),
    ensures
        (Double { bits: EIGHTY }).below(r.resource_utilization.memory_utilization) ==> recommends_to(
            v@,
            "Consider increasing memory limits or optimizing memory usage"@,
        ),
        r.hit_ratio.below(Double { bits: HALF }) ==> recommends_to(
            v@,
            "Low cache hit ratio detected. Consider reviewing cache configuration or access patterns"@,
        ),
        r.task_stats.available_permits == 0 ==> recommends_to(
            v@,
            "Task execution at capacity. Consider increasing concurrent task limits"@,
        ),
        0 <= i < r.operations@.len() && (Double { bits: ONE_TENTH }).below(r.operations@[i].error_rate) ==> recommends_to(
            v@,
            "High error rate for operation '"@ + r.operations@[i].metrics.operation@ + "'. Review error logs and retry policies"@,
        ),
        0 <= i < r.operations@.len() && nanos(r.operations@[i].metrics.p95_duration) > 10_000_000_000 ==> recommends_to(
            v@,
            "Slow performance for operation '"@ + r.operations@[i].metrics.operation@
                + "'. Consider optimization or timeout adjustment"@,
        ),
        r.operations@.len() == 0 && r.task_stats.available_permits > 0 && !(Double { bits: EIGHTY }).below(
            r.resource_utilization.memory_utilization,
        ) && !r.hit_ratio.below(Double { bits: HALF }) ==> v@.len() == 0,
{
    let n = r.operations@.len() as int;
    let storage = storage_advice(*r);
    let ops = operations_advice(r.operations@, n);
    let all = views(v@);
    let last = all.skip((storage.len() + ops.len()) as int);
    assert(all.len() == v@.len());
    if (Double { bits: EIGHTY }).below(r.resource_utilization.memory_utilization) {
        assert(all[0] == storage[0]);
    }
    if r.hit_ratio.below(Double { bits: HALF }) {
        assert(all[storage.len() - 1] == storage[storage.len() - 1]);
    }
    if r.task_stats.available_permits == 0 {
        assert(all[all.len() - 1] == "Task execution at capacity. Consider increasing concurrent task limits"@);
    }
    if 0 <= i < n {
        let own = operation_advice(r.operations@[i]);
        assert forall|j: int| 0 <= j < own.len() implies all.contains(#[trigger] own[j]) by {
            lemma_advice_of_operations(r.operations@, n, i, j);
            let k = choose|k: int| 0 <= k < ops.len() && ops[k] == own[j];
            assert(all[storage.len() + k] == ops[k]);
        }
        if (Double { bits: ONE_TENTH }).below(r.operations@[i].error_rate) {
            assert(all.contains(own[0]));
        }
        if nanos(r.operations@[i].metrics.p95_duration) > 10_000_000_000 {
            assert(all.contains(own[own.len() - 1]));
        }
    }
}

proof fn lemma_advice_of_operations(v: Seq<OperationReading>, n: int, i: int, j: int)
    requires
        0 <= i < n <= v.len(),
        0 <= j < operation_advice(v[i]).len(),
    ensures
        operations_advice(v, n).contains(operation_advice(v[i])[j]),
    decreases n,
{
    let all = operations_advice(v, n);
    let before = operations_advice(v, n - 1);
    let own = operation_advice(v[n - 1]);
    if i == n - 1 {
        assert(all[before.len() + j] == own[j]);
    } else {
        lemma_advice_of_operations(v, n - 1, i, j);
        let k = choose|k: int| 0 <= k < before.len() && before[k] == operation_advice(v[i])[j];
        assert(all[k] == before[k]);
    }
}

/// What is collected is the readings, the time, how well things are and what is wrong, by the
/// same rules as where these are asked for one by one.
pub proof fn collected_metrics_agree(readings: Readings, at: Timestamp, r: SystemSnapshot, h: SystemHealth, a: Vec<Alert>)
    requires
        call_ensures(collect_metrics, (readings, at), r),
        call_ensures(calculate_health_status, (&readings,), h),
        call_ensures(collect_alerts, (&readings, at), a),
    ensures
        r.timestamp == at && r.readings == readings && r.health_status == h,
        r.alerts@.len() == a@.len(),
        forall|i: int| 0 <= i < a@.len() ==> (#[trigger] r.alerts@[i])@ == a@[i]@,
{
    assert(alert_views(r.alerts@) == alert_views(a@));
    assert forall|i: int| 0 <= i < a@.len() implies (#[trigger] r.alerts@[i])@ == a@[i]@ by {
        assert(alert_views(r.alerts@)[i] == alert_views(a@)[i]);
    }
}

/// Of a system of which nothing is known nothing is said.
pub proof fn unknown_system_has_no_readings(at: Timestamp, r: SystemSnapshot)
    requires
        call_ensures(unknown_snapshot, (at,), r),
    ensures
        r.timestamp == at && r.alerts@.len() == 0 && r.readings.operations@.len() == 0,
        r.health_status.overall_status is Unknown && r.health_status.memory_health is Unknown && r.health_status.cpu_health is Unknown
            && r.health_status.task_health is Unknown && r.health_status.cache_health is Unknown
            && r.health_status.performance_health is Unknown,
        r.readings.resource_usage.memory_usage == 0 && r.readings.resource_usage.concurrent_tasks == 0
            && r.readings.resource_usage.total_tasks_executed == 0 && r.readings.task_stats.total_tasks == 0
            && r.readings.task_stats.available_permits == 0 && r.readings.cache_stats.total_entries == 0,
{
}

/// A report holds the present snapshot, the recent ones, what they add up to and what follows
/// from the present one, by the same rules as where these are asked for one by one.
pub proof fn report_agrees(
    current: SystemSnapshot,
    history: &Vec<SystemSnapshot>,
    cutoff: Timestamp,
    ratio: Double,
    at: Timestamp,
    r: SystemReport,
    recents: Vec<usize>,
    advised: Vec<String>,
)
    requires
        call_ensures(generate_report, (Some(current), history, cutoff, ratio, at), r),
        call_ensures(get_history, (history, cutoff), recents),
        call_ensures(generate_recommendations, (&current.readings,), advised),
    ensures
        r.generated_at == at && r.current_snapshot == current,
        r.historical_snapshots@ == recents@,
        r.recommendations@.len() == advised@.len(),
        forall|i: int| 0 <= i < advised@.len() ==> (#[trigger] r.recommendations@[i])@ == advised@[i]@,
        r.summary.total_tasks_executed == current.readings.resource_usage.total_tasks_executed,
        r.summary.peak_memory_usage == current.readings.resource_usage.peak_memory_usage,
        r.summary.alert_count == current.alerts@.len(),
        recents@.len() == 0 ==> r.summary.average_memory_usage == current.readings.resource_usage.memory_usage
            && r.summary.average_cache_hit_ratio == current.readings.hit_ratio,
        recents@.len() > 0 ==> r.summary.average_cache_hit_ratio == ratio,
{
    assert(views(r.recommendations@) == views(advised@));
    assert forall|i: int| 0 <= i < advised@.len() implies (#[trigger] r.recommendations@[i])@ == advised@[i]@ by {
        assert(views(r.recommendations@)[i] == views(advised@)[i]);
    }
}

/// From where on alerts are given unless told otherwise.
pub proof fn usual_thresholds(t: AlertThresholds)
    requires
        call_ensures(AlertThresholds::default, (), t),
    ensures
        t.memory_warning_percent.bits == EIGHTY && t.memory_critical_percent.bits == NINETY,
        t.error_rate_warning.bits == ONE_TENTH && t.error_rate_critical.bits == TWO_TENTHS,
        t.cache_hit_ratio_warning.bits == HALF && t.cache_hit_ratio_critical.bits == THREE_TENTHS,
        t.task_failure_rate_warning.bits == ONE_TENTH && t.task_failure_rate_critical.bits == TWO_TENTHS,
{
}

/// Every alert is of the time at which it is given, and has no details.
pub proof fn alerts_are_of_their_time(r: &Readings, at: Timestamp, v: Vec<Alert>, i: int)
    requires
        call_ensures(collect_alerts, (r, at), v),
        0 <= i < v@.len(),
    ensures
        v@[i].timestamp == at && v@[i].details is None,
{
    let m = memory_alerts(*r, at);
    let c = cache_alerts(*r, at);
    let n = r.operations@.len() as int;
    let o = operations_alerts(r.operations@, at, n);
    let all = alert_views(v@);
    lemma_operations_time(r.operations@, at, n);
    assert(all[i] == v@[i]@);
    assert(all == m + c + o);
    if i >= m.len() + c.len() {
        assert(all[i] == o[i - m.len() - c.len()]);
    } else if i >= m.len() {
        assert(all[i] == c[i - m.len()]);
    } else {
        assert(all[i] == m[i]);
    }
}

proof fn lemma_operations_time(v: Seq<OperationReading>, at: Timestamp, n: int)
    ensures
        forall|i: int|
            0 <= i < operations_alerts(v, at, n).len() ==> (#[trigger] operations_alerts(v, at, n)[i]).timestamp == at
                && operations_alerts(v, at, n)[i].plain,
    decreases n,
{
    if n > 0 {
        lemma_operations_time(v, at, n - 1);
        let before = operations_alerts(v, at, n - 1);
        let own = operation_alerts(v[n - 1], at);
        let all = operations_alerts(v, at, n);
        assert forall|i: int| 0 <= i < all.len() implies (#[trigger] all[i]).timestamp == at && all[i].plain by {
            if i < before.len() {
                assert(all[i] == before[i]);
            } else {
                assert(all[i] == own[i - before.len()]);
            }
        }
    }
}

} // verus!
