//! Limits on resources, and how much of them is in use.

use crate::double::{Double, EIGHTY, FIFTY, HUNDRED, NINETY_FIVE, ZERO};
use crate::duration::{millis_of, nanos, whole_millis};
use crate::errors::DaggerError;
use std::time::Duration;
use vstd::prelude::*;

verus! {

/// How much may be used.
#[derive(Debug, Clone, Copy)]
pub struct ResourceLimits {
    pub max_memory_bytes: u64,
    pub max_concurrent_tasks: usize,
    pub max_execution_tree_nodes: usize,
    pub max_cache_entries: usize,
    pub max_file_handles: usize,
    pub max_network_connections: usize,
    /// How long a task may take.
    pub max_task_execution_time: Duration,
    /// How long everything may take.
    pub max_total_execution_time: Duration,
    pub max_dependency_depth: usize,
    pub max_task_retries: u32,
    pub max_message_size_bytes: usize,
    pub max_channel_queue_size: usize,
    /// A percentage.
    pub max_cpu_usage_percent: Double,
}

/// Whether `l` holds these limits; times are in seconds.
pub open spec fn holds_limits(
    l: ResourceLimits,
    memory: int,
    tasks: int,
    nodes: int,
    entries: int,
    files: int,
    connections: int,
    task_secs: int,
    total_secs: int,
    depth: int,
    retries: int,
    message: int,
    queue: int,
    cpu: u64,
) -> bool {
    &&& l.max_memory_bytes == memory
    &&& l.max_concurrent_tasks == tasks
    &&& l.max_execution_tree_nodes == nodes
    &&& l.max_cache_entries == entries
    &&& l.max_file_handles == files
    &&& l.max_network_connections == connections
    &&& nanos(l.max_task_execution_time) == task_secs * 1_000_000_000
    &&& nanos(l.max_total_execution_time) == total_secs * 1_000_000_000
    &&& l.max_dependency_depth == depth
    &&& l.max_task_retries == retries
    &&& l.max_message_size_bytes == message
    &&& l.max_channel_queue_size == queue
    &&& l.max_cpu_usage_percent.bits == cpu
}

impl Default for ResourceLimits {
    fn default() -> (r: Self)
        ensures
            holds_limits(
                r,
                1_000_000_000,
                100,
                10_000,
                50_000,
                1_000,
                100,
                300,
                3600,
                20,
                5,
                10_000_000,
                1_000,
                EIGHTY,
            ),
            r.problem() is None,
    {
        ResourceLimits {
            max_memory_bytes: 1_000_000_000,
            max_concurrent_tasks: 100,
            max_execution_tree_nodes: 10_000,
            max_cache_entries: 50_000,
            max_file_handles: 1_000,
            max_network_connections: 100,
            max_task_execution_time: Duration::from_secs(300),
            max_total_execution_time: Duration::from_secs(3600),
            max_dependency_depth: 20,
            max_task_retries: 5,
            max_message_size_bytes: 10_000_000,
            max_channel_queue_size: 1_000,
            max_cpu_usage_percent: Double { bits: EIGHTY },
        }
    }
}

impl ResourceLimits {
    /// What is wrong with the limits.
    pub open spec fn problem(&self) -> Option<Seq<char>> {
        if self.max_memory_bytes == 0 {
            Some("max_memory_bytes must be greater than 0"@)
        } else if self.max_concurrent_tasks == 0 {
            Some("max_concurrent_tasks must be greater than 0"@)
        } else if self.max_execution_tree_nodes == 0 {
            Some("max_execution_tree_nodes must be greater than 0"@)
        } else if self.max_cache_entries == 0 {
            Some("max_cache_entries must be greater than 0"@)
        } else if self.max_dependency_depth == 0 {
            Some("max_dependency_depth must be greater than 0"@)
        } else if self.max_cpu_usage_percent.at_most(Double { bits: ZERO }) || (Double { bits: HUNDRED }).below(
            self.max_cpu_usage_percent,
        ) {
            Some("max_cpu_usage_percent must be between 0 and 100"@)
        } else if self.max_message_size_bytes == 0 {
            Some("max_message_size_bytes must be greater than 0"@)
        } else if self.max_channel_queue_size == 0 {
            Some("max_channel_queue_size must be greater than 0"@)
        } else {
            None
        }
    }

    /// Checks the limits.
    pub fn validate(&self) -> (r: Result<(), DaggerError>)
        ensures
            r is Ok <==> self.problem() is None,
            r matches Err(e) ==> self.problem() is Some && e.is_configuration(self.problem()->0),
    {
        if self.max_memory_bytes == 0 {
            return Err(DaggerError::configuration("max_memory_bytes must be greater than 0"));
        }
        if self.max_concurrent_tasks == 0 {
            return Err(DaggerError::configuration("max_concurrent_tasks must be greater than 0"));
        }
        if self.max_execution_tree_nodes == 0 {
            return Err(DaggerError::configuration("max_execution_tree_nodes must be greater than 0"));
        }
        if self.max_cache_entries == 0 {
            return Err(DaggerError::configuration("max_cache_entries must be greater than 0"));
        }
        if self.max_dependency_depth == 0 {
            return Err(DaggerError::configuration("max_dependency_depth must be greater than 0"));
        }
        if self.max_cpu_usage_percent.le(Double { bits: ZERO }) || (Double { bits: HUNDRED }).lt(
            self.max_cpu_usage_percent,
        ) {
            return Err(DaggerError::configuration("max_cpu_usage_percent must be between 0 and 100"));
        }
        if self.max_message_size_bytes == 0 {
            return Err(DaggerError::configuration("max_message_size_bytes must be greater than 0"));
        }
        if self.max_channel_queue_size == 0 {
            return Err(DaggerError::configuration("max_channel_queue_size must be greater than 0"));
        }
        Ok(())
    }

    /// Narrow limits.
    pub fn conservative() -> (r: Self)
        ensures
            holds_limits(r, 100_000_000, 10, 1_000, 5_000, 100, 10, 30, 300, 10, 3, 1_000_000, 100, FIFTY),
            r.problem() is None,
    {
        ResourceLimits {
            max_memory_bytes: 100_000_000,
            max_concurrent_tasks: 10,
            max_execution_tree_nodes: 1_000,
            max_cache_entries: 5_000,
            max_file_handles: 100,
            max_network_connections: 10,
            max_task_execution_time: Duration::from_secs(30),
            max_total_execution_time: Duration::from_secs(300),
            max_dependency_depth: 10,
            max_task_retries: 3,
            max_message_size_bytes: 1_000_000,
            max_channel_queue_size: 100,
            max_cpu_usage_percent: Double { bits: FIFTY },
        }
    }

    /// Wide limits.
    pub fn aggressive() -> (r: Self)
        ensures
            holds_limits(
                r,
                8_000_000_000,
                1000,
                100_000,
                500_000,
                10_000,
                1000,
                1800,
                14400,
                50,
                10,
                100_000_000,
                10_000,
                NINETY_FIVE,
            ),
            r.problem() is None,
    {
        ResourceLimits {
            max_memory_bytes: 8_000_000_000,
            max_concurrent_tasks: 1000,
            max_execution_tree_nodes: 100_000,
            max_cache_entries: 500_000,
            max_file_handles: 10_000,
            max_network_connections: 1000,
            max_task_execution_time: Duration::from_secs(1800),
            max_total_execution_time: Duration::from_secs(14400),
            max_dependency_depth: 50,
            max_task_retries: 10,
            max_message_size_bytes: 100_000_000,
            max_channel_queue_size: 10_000,
            max_cpu_usage_percent: Double { bits: NINETY_FIVE },
        }
    }
}

/// How much is in use and was in use.
#[derive(Debug, Clone, Copy, PartialEq, Eq, Structural)]
pub struct ResourceUsageStats {
    pub memory_usage: u64,
    pub concurrent_tasks: usize,
    pub execution_tree_nodes: usize,
    pub cache_entries: usize,
    pub file_handles: usize,
    pub network_connections: usize,
    pub peak_memory_usage: u64,
    pub peak_concurrent_tasks: usize,
    pub total_tasks_executed: u64,
    /// How often a limit was hit.
    pub total_limit_violations: u64,
}

/// How much is in use, as percentages of the limits.
#[derive(Debug, Clone, Copy, PartialEq, Eq, Structural)]
pub struct ResourceUtilization {
    pub memory_utilization: Double,
    pub task_utilization: Double,
    pub tree_utilization: Double,
    pub cache_utilization: Double,
    pub file_utilization: Double,
    pub network_utilization: Double,
}

impl ResourceUtilization {
    /// The highest percentage.
    pub open spec fn highest(&self) -> Double {
        (Double { bits: ZERO }).greater(self.memory_utilization).greater(self.task_utilization).greater(
            self.tree_utilization,
        ).greater(self.cache_utilization).greater(self.file_utilization).greater(self.network_utilization)
    }

    /// The highest percentage.
    pub fn max_utilization(&self) -> (r: Double)
        ensures
            r == self.highest(),
    {
        let zero = Double { bits: ZERO };
        zero.max(self.memory_utilization).max(self.task_utilization).max(self.tree_utilization).max(
            self.cache_utilization,
        ).max(self.file_utilization).max(self.network_utilization)
    }

    /// Whether the highest percentage lies over `threshold`.
    pub fn is_over_threshold(&self, threshold: Double) -> (r: bool)
        ensures
            r == threshold.below(self.highest()),
    {
        threshold.lt(self.max_utilization())
    }

    /// Whether some percentage lies over 80.
    pub open spec fn near_limits(&self) -> bool {
        let mark = Double { bits: EIGHTY };
        ||| mark.below(self.memory_utilization)
        ||| mark.below(self.task_utilization)
        ||| mark.below(self.tree_utilization)
        ||| mark.below(self.cache_utilization)
        ||| mark.below(self.file_utilization)
        ||| mark.below(self.network_utilization)
    }

    /// Whether some percentage lies over 80.
    pub fn is_approaching_limits(&self) -> (r: bool)
        ensures
            r == self.near_limits(),
    {
        let mark = Double { bits: EIGHTY };
        mark.lt(self.memory_utilization) || mark.lt(self.task_utilization) || mark.lt(self.tree_utilization) || mark.lt(
            self.cache_utilization,
        ) || mark.lt(self.file_utilization) || mark.lt(self.network_utilization)
    }
}

/// Some percentage lies over 80 just where the highest does.
pub proof fn near_limits_is_over_threshold(u: ResourceUtilization)
    ensures
        u.near_limits() <==> (Double { bits: EIGHTY }).below(u.highest()),
{
}

/// Memory that is in use until it is given back.
#[derive(Debug)]
pub struct MemoryAllocation {
    pub bytes: u64,
}

/// A task that runs since `start`, in nanoseconds by a clock that does not go back.
#[derive(Debug)]
pub struct TaskExecution {
    pub start: u128,
}

/// A file that is open.
#[derive(Debug)]
pub struct FileHandle {
    pub number: usize,
}

/// A connection that is open.
#[derive(Debug)]
pub struct NetworkConnection {
    pub number: usize,
}

/// The number after `n`; after the highest comes 0 again.
pub open spec fn counted_up(n: u64) -> u64 {
    if n == u64::MAX {
        0
    } else {
        (n + 1) as u64
    }
}

/// The number after `n`.
pub(crate) fn count_up(n: u64) -> (r: u64)
    ensures
        r == counted_up(n),
{
    if n == u64::MAX {
        0
    } else {
        n + 1
    }
}

/// The number before `n`, and 0 before 0.
pub open spec fn counted_down(n: usize) -> usize {
    if n == 0 {
        0
    } else {
        (n - 1) as usize
    }
}

fn count_down(n: usize) -> (r: usize)
    ensures
        r == counted_down(n),
{
    if n == 0 {
        0
    } else {
        n - 1
    }
}

/// The usage after one more violation of a limit.
pub open spec fn violated(s: ResourceUsageStats) -> ResourceUsageStats {
    ResourceUsageStats { total_limit_violations: counted_up(s.total_limit_violations), ..s }
}

/// Keeps count of what is in use, within limits.
#[derive(Debug)]
pub struct ResourceTracker {
    limits: ResourceLimits,
    usage: ResourceUsageStats,
    start_time: Option<u128>,
}

impl ResourceTracker {
    /// The limits.
    pub closed spec fn limits(&self) -> ResourceLimits {
        self.limits
    }

    /// What is in use.
    pub closed spec fn usage(&self) -> ResourceUsageStats {
        self.usage
    }

    /// When execution started.
    pub closed spec fn started(&self) -> Option<u128> {
        self.start_time
    }

    /// The limits are in order, nothing is over its limit, and peaks are as high as what is in
    /// use.
    #[verifier::type_invariant]
    pub closed spec fn wf(&self) -> bool {
        within(self.limits, self.usage)
    }

    /// Keeps count within `limits`, where they are in order.
    pub fn new(limits: ResourceLimits) -> (r: Result<Self, DaggerError>)
        ensures
            r is Ok <==> limits.problem() is None,
            r matches Ok(t) ==> t.limits() == limits && t.usage() == unused() && t.started() is None,
            r matches Err(e) ==> limits.problem() is Some && e.is_configuration(limits.problem()->0),
    {
        match limits.validate() {
            Ok(()) => {},
            Err(e) => {
                return Err(e);
            },
        }
        Ok(
            ResourceTracker {
                limits,
                usage: ResourceUsageStats {
                    memory_usage: 0,
                    concurrent_tasks: 0,
                    execution_tree_nodes: 0,
                    cache_entries: 0,
                    file_handles: 0,
                    network_connections: 0,
                    peak_memory_usage: 0,
                    peak_concurrent_tasks: 0,
                    total_tasks_executed: 0,
                    total_limit_violations: 0,
                },
                start_time: None,
            },
        )
    }

    /// Execution starts at `now`, in nanoseconds by a clock that does not go back.
    pub fn start_execution(&mut self, now: u128)
        ensures
            final(self).limits() == old(self).limits(),
            final(self).usage() == old(self).usage(),
            final(self).started() == Some(now),
    {
        proof {
            use_type_invariant(&*self);
        }
        self.start_time = Some(now);
    }

    /// How long execution has lasted at `now`.
    pub open spec fn elapsed(&self, now: u128) -> nat {
        if self.started() is Some && now > self.started()->0 {
            (now - self.started()->0) as nat
        } else {
            0
        }
    }

    /// Checks that execution has not lasted for too long.
    pub fn check_execution_time(&self, now: u128) -> (r: Result<(), DaggerError>)
        ensures
            r is Ok <==> !(self.started() is Some && self.elapsed(now) > nanos(self.limits().max_total_execution_time)),
            r matches Err(e) ==> e.is_timeout("total_execution"@, millis_of(self.elapsed(now)) as int),
    {
        if let Some(start) = self.start_time {
            let elapsed: u128 = if now > start {
                now - start
            } else {
                0
            };
            if elapsed > self.limits.max_total_execution_time.as_nanos() {
                return Err(DaggerError::timeout("total_execution", whole_millis(elapsed)));
            }
        }
        Ok(())
    }

    /// Takes memory, where that keeps within the limit.
    pub fn allocate_memory(&mut self, bytes: u64) -> (r: Result<MemoryAllocation, DaggerError>)
        requires
            old(self).limits().max_memory_bytes + bytes <= u64::MAX || old(self).usage().memory_usage + bytes <= u64::MAX,
        ensures
            final(self).limits() == old(self).limits(),
            final(self).started() == old(self).started(),
            ({
                let total = old(self).usage().memory_usage + bytes;
                &&& r is Ok <==> total <= old(self).limits().max_memory_bytes
                &&& r matches Ok(a) ==> a.bytes == bytes && final(self).usage() == (ResourceUsageStats {
                    memory_usage: total as u64,
                    peak_memory_usage: if total > old(self).usage().peak_memory_usage {
                        total as u64
                    } else {
                        old(self).usage().peak_memory_usage
                    },
                    ..old(self).usage()
                })
                &&& r matches Err(e) ==> e.is_exhausted("memory"@, total, old(self).limits().max_memory_bytes as int)
                    && final(self).usage() == violated(old(self).usage())
            }),
    {
        proof {
            use_type_invariant(&*self);
        }
        let total: u64 = self.usage.memory_usage + bytes;
        let mut usage: ResourceUsageStats = self.usage;
        if total > self.limits.max_memory_bytes {
            usage.total_limit_violations = count_up(usage.total_limit_violations);
            self.usage = usage;
            return Err(DaggerError::resource_exhausted("memory", total, self.limits.max_memory_bytes));
        }
        usage.memory_usage = total;
        if total > usage.peak_memory_usage {
            usage.peak_memory_usage = total;
        }
        self.usage = usage;
        Ok(MemoryAllocation { bytes })
    }

    /// Gives memory back.
    pub fn deallocate_memory(&mut self, allocation: MemoryAllocation)
        ensures
            final(self).limits() == old(self).limits(),
            final(self).started() == old(self).started(),
            final(self).usage() == (ResourceUsageStats {
                memory_usage: if old(self).usage().memory_usage > allocation.bytes {
                    (old(self).usage().memory_usage - allocation.bytes) as u64
                } else {
                    0
                },
                ..old(self).usage()
            }),
    {
        proof {
            use_type_invariant(&*self);
        }
        let mut usage: ResourceUsageStats = self.usage;
        usage.memory_usage = if usage.memory_usage > allocation.bytes {
            usage.memory_usage - allocation.bytes
        } else {
            0
        };
        self.usage = usage;
    }

    /// Starts a task at `now`, where that keeps within the limit.
    pub fn start_task(&mut self, now: u128) -> (r: Result<TaskExecution, DaggerError>)
        requires
            old(self).limits().max_concurrent_tasks < usize::MAX || old(self).usage().concurrent_tasks < usize::MAX,
        ensures
            final(self).limits() == old(self).limits(),
            final(self).started() == old(self).started(),
            ({
                let total = old(self).usage().concurrent_tasks + 1;
                &&& r is Ok <==> total <= old(self).limits().max_concurrent_tasks
                &&& r matches Ok(t) ==> t.start == now && final(self).usage() == (ResourceUsageStats {
                    concurrent_tasks: total as usize,
                    peak_concurrent_tasks: if total > old(self).usage().peak_concurrent_tasks {
                        total as usize
                    } else {
                        old(self).usage().peak_concurrent_tasks
                    },
                    total_tasks_executed: counted_up(old(self).usage().total_tasks_executed),
                    ..old(self).usage()
                })
                &&& r matches Err(e) ==> e.is_exhausted(
                    "concurrent_tasks"@,
                    total,
                    old(self).limits().max_concurrent_tasks as int,
                ) && final(self).usage() == violated(old(self).usage())
            }),
    {
        proof {
            use_type_invariant(&*self);
        }
        let total: usize = self.usage.concurrent_tasks + 1;
        let mut usage: ResourceUsageStats = self.usage;
        if total > self.limits.max_concurrent_tasks {
            usage.total_limit_violations = count_up(usage.total_limit_violations);
            self.usage = usage;
            return Err(
                DaggerError::resource_exhausted("concurrent_tasks", total as u64, self.limits.max_concurrent_tasks as u64),
            );
        }
        usage.concurrent_tasks = total;
        if total > usage.peak_concurrent_tasks {
            usage.peak_concurrent_tasks = total;
        }
        usage.total_tasks_executed = count_up(usage.total_tasks_executed);
        self.usage = usage;
        Ok(TaskExecution { start: now })
    }

    /// Ends a task at `now`; says so where it took too long.
    pub fn end_task(&mut self, task: TaskExecution, now: u128) -> (r: Result<(), DaggerError>)
        ensures
            final(self).limits() == old(self).limits(),
            final(self).started() == old(self).started(),
            final(self).usage() == (ResourceUsageStats {
                concurrent_tasks: counted_down(old(self).usage().concurrent_tasks),
                ..old(self).usage()
            }),
            ({
                let time = if now > task.start {
                    (now - task.start) as nat
                } else {
                    0
                };
                &&& r is Ok <==> time <= nanos(old(self).limits().max_task_execution_time)
                &&& r matches Err(e) ==> e.is_timeout("task_execution"@, millis_of(time) as int)
            }),
    {
        proof {
            use_type_invariant(&*self);
        }
        let mut usage: ResourceUsageStats = self.usage;
        usage.concurrent_tasks = count_down(usage.concurrent_tasks);
        self.usage = usage;
        let time: u128 = if now > task.start {
            now - task.start
        } else {
            0
        };
        if time > self.limits.max_task_execution_time.as_nanos() {
            return Err(DaggerError::timeout("task_execution", whole_millis(time)));
        }
        Ok(())
    }

    /// Adds a node to the record of execution, where that keeps within the limit.
    pub fn add_execution_tree_node(&mut self) -> (r: Result<(), DaggerError>)
        requires
            old(self).limits().max_execution_tree_nodes < usize::MAX || old(self).usage().execution_tree_nodes < usize::MAX,
        ensures
            final(self).limits() == old(self).limits(),
            final(self).started() == old(self).started(),
            ({
                let total = old(self).usage().execution_tree_nodes + 1;
                &&& r is Ok <==> total <= old(self).limits().max_execution_tree_nodes
                &&& r matches Ok(_) ==> final(self).usage() == (ResourceUsageStats {
                    execution_tree_nodes: total as usize,
                    ..old(self).usage()
                })
                &&& r matches Err(e) ==> e.is_exhausted("execution_tree_nodes"@, total, old(self).limits().max_execution_tree_nodes as int)
                    && final(self).usage() == violated(old(self).usage())
            }),
    {
        proof {
            use_type_invariant(&*self);
        }
        let total: usize = self.usage.execution_tree_nodes + 1;
        let mut usage: ResourceUsageStats = self.usage;
        if total > self.limits.max_execution_tree_nodes {
            usage.total_limit_violations = count_up(usage.total_limit_violations);
            self.usage = usage;
            return Err(DaggerError::resource_exhausted("execution_tree_nodes", total as u64, self.limits.max_execution_tree_nodes as u64));
        }
        usage.execution_tree_nodes = total;
        self.usage = usage;
        Ok(())
    }

    /// Takes a node out of the record of execution.
    pub fn remove_execution_tree_node(&mut self)
        ensures
            final(self).limits() == old(self).limits(),
            final(self).started() == old(self).started(),
            final(self).usage() == (ResourceUsageStats {
                execution_tree_nodes: counted_down(old(self).usage().execution_tree_nodes),
                ..old(self).usage()
            }),
    {
        proof {
            use_type_invariant(&*self);
        }
        let mut usage: ResourceUsageStats = self.usage;
        usage.execution_tree_nodes = count_down(usage.execution_tree_nodes);
        self.usage = usage;
    }

    /// Adds a cache entry, where that keeps within the limit.
    pub fn add_cache_entry(&mut self) -> (r: Result<(), DaggerError>)
        requires
            old(self).limits().max_cache_entries < usize::MAX || old(self).usage().cache_entries < usize::MAX,
        ensures
            final(self).limits() == old(self).limits(),
            final(self).started() == old(self).started(),
            ({
                let total = old(self).usage().cache_entries + 1;
                &&& r is Ok <==> total <= old(self).limits().max_cache_entries
                &&& r matches Ok(_) ==> final(self).usage() == (ResourceUsageStats {
                    cache_entries: total as usize,
                    ..old(self).usage()
                })
                &&& r matches Err(e) ==> e.is_exhausted("cache_entries"@, total, old(self).limits().max_cache_entries as int)
                    && final(self).usage() == violated(old(self).usage())
            }),
    {
        proof {
            use_type_invariant(&*self);
        }
        let total: usize = self.usage.cache_entries + 1;
        let mut usage: ResourceUsageStats = self.usage;
        if total > self.limits.max_cache_entries {
            usage.total_limit_violations = count_up(usage.total_limit_violations);
            self.usage = usage;
            return Err(DaggerError::resource_exhausted("cache_entries", total as u64, self.limits.max_cache_entries as u64));
        }
        usage.cache_entries = total;
        self.usage = usage;
        Ok(())
    }

    /// Takes a cache entry out.
    pub fn remove_cache_entry(&mut self)
        ensures
            final(self).limits() == old(self).limits(),
            final(self).started() == old(self).started(),
            final(self).usage() == (ResourceUsageStats {
                cache_entries: counted_down(old(self).usage().cache_entries),
                ..old(self).usage()
            }),
    {
        proof {
            use_type_invariant(&*self);
        }
        let mut usage: ResourceUsageStats = self.usage;
        usage.cache_entries = count_down(usage.cache_entries);
        self.usage = usage;
    }

    /// Opens a file, where that keeps within the limit.
    pub fn open_file_handle(&mut self) -> (r: Result<FileHandle, DaggerError>)
        requires
            old(self).limits().max_file_handles < usize::MAX || old(self).usage().file_handles < usize::MAX,
        ensures
            final(self).limits() == old(self).limits(),
            final(self).started() == old(self).started(),
            ({
                let total = old(self).usage().file_handles + 1;
                &&& r is Ok <==> total <= old(self).limits().max_file_handles
                &&& r matches Ok(h) ==> h.number == total && final(self).usage() == (ResourceUsageStats {
                    file_handles: total as usize,
                    ..old(self).usage()
                })
                &&& r matches Err(e) ==> e.is_exhausted("file_handles"@, total, old(self).limits().max_file_handles as int)
                    && final(self).usage() == violated(old(self).usage())
            }),
    {
        proof {
            use_type_invariant(&*self);
        }
        let total: usize = self.usage.file_handles + 1;
        let mut usage: ResourceUsageStats = self.usage;
        if total > self.limits.max_file_handles {
            usage.total_limit_violations = count_up(usage.total_limit_violations);
            self.usage = usage;
            return Err(DaggerError::resource_exhausted("file_handles", total as u64, self.limits.max_file_handles as u64));
        }
        usage.file_handles = total;
        self.usage = usage;
        Ok(FileHandle { number: total })
    }

    /// Closes a file.
    pub fn close_file_handle(&mut self, handle: FileHandle)
        ensures
            final(self).limits() == old(self).limits(),
            final(self).started() == old(self).started(),
            final(self).usage() == (ResourceUsageStats {
                file_handles: counted_down(old(self).usage().file_handles),
                ..old(self).usage()
            }),
    {
        proof {
            use_type_invariant(&*self);
        }
        let mut usage: ResourceUsageStats = self.usage;
        usage.file_handles = count_down(usage.file_handles);
        self.usage = usage;
    }

    /// Opens a connection, where that keeps within the limit.
    pub fn open_network_connection(&mut self) -> (r: Result<NetworkConnection, DaggerError>)
        requires
            old(self).limits().max_network_connections < usize::MAX || old(self).usage().network_connections < usize::MAX,
        ensures
            final(self).limits() == old(self).limits(),
            final(self).started() == old(self).started(),
            ({
                let total = old(self).usage().network_connections + 1;
                &&& r is Ok <==> total <= old(self).limits().max_network_connections
                &&& r matches Ok(h) ==> h.number == total && final(self).usage() == (ResourceUsageStats {
                    network_connections: total as usize,
                    ..old(self).usage()
                })
                &&& r matches Err(e) ==> e.is_exhausted("network_connections"@, total, old(self).limits().max_network_connections as int)
                    && final(self).usage() == violated(old(self).usage())
            }),
    {
        proof {
            use_type_invariant(&*self);
        }
        let total: usize = self.usage.network_connections + 1;
        let mut usage: ResourceUsageStats = self.usage;
        if total > self.limits.max_network_connections {
            usage.total_limit_violations = count_up(usage.total_limit_violations);
            self.usage = usage;
            return Err(DaggerError::resource_exhausted("network_connections", total as u64, self.limits.max_network_connections as u64));
        }
        usage.network_connections = total;
        self.usage = usage;
        Ok(NetworkConnection { number: total })
    }

    /// Closes a connection.
    pub fn close_network_connection(&mut self, handle: NetworkConnection)
        ensures
            final(self).limits() == old(self).limits(),
            final(self).started() == old(self).started(),
            final(self).usage() == (ResourceUsageStats {
                network_connections: counted_down(old(self).usage().network_connections),
                ..old(self).usage()
            }),
    {
        proof {
            use_type_invariant(&*self);
        }
        let mut usage: ResourceUsageStats = self.usage;
        usage.network_connections = count_down(usage.network_connections);
        self.usage = usage;
    }

    /// Checks the size of a message.
    pub fn validate_message_size(&mut self, size: usize) -> (r: Result<(), DaggerError>)
        ensures
            final(self).limits() == old(self).limits(),
            final(self).started() == old(self).started(),
            r is Ok <==> size <= old(self).limits().max_message_size_bytes,
            r is Ok ==> final(self).usage() == old(self).usage(),
            r matches Err(e) ==> e.is_exhausted("message_size"@, size as int, old(self).limits().max_message_size_bytes as int)
                && final(self).usage() == violated(old(self).usage()),
    {
        proof {
            use_type_invariant(&*self);
        }
        if size > self.limits.max_message_size_bytes {
            let mut usage: ResourceUsageStats = self.usage;
            usage.total_limit_violations = count_up(usage.total_limit_violations);
            self.usage = usage;
            return Err(DaggerError::resource_exhausted("message_size", size as u64, self.limits.max_message_size_bytes as u64));
        }
        Ok(())
    }

    /// Checks how deep dependencies go.
    pub fn validate_dependency_depth(&mut self, depth: usize) -> (r: Result<(), DaggerError>)
        ensures
            final(self).limits() == old(self).limits(),
            final(self).started() == old(self).started(),
            r is Ok <==> depth <= old(self).limits().max_dependency_depth,
            r is Ok ==> final(self).usage() == old(self).usage(),
            r matches Err(e) ==> e.is_exhausted("dependency_depth"@, depth as int, old(self).limits().max_dependency_depth as int)
                && final(self).usage() == violated(old(self).usage()),
    {
        proof {
            use_type_invariant(&*self);
        }
        if depth > self.limits.max_dependency_depth {
            let mut usage: ResourceUsageStats = self.usage;
            usage.total_limit_violations = count_up(usage.total_limit_violations);
            self.usage = usage;
            return Err(DaggerError::resource_exhausted("dependency_depth", depth as u64, self.limits.max_dependency_depth as u64));
        }
        Ok(())
    }

    /// Checks how often a task was tried again.
    pub fn validate_retry_count(&mut self, count: u32) -> (r: Result<(), DaggerError>)
        ensures
            final(self).limits() == old(self).limits(),
            final(self).started() == old(self).started(),
            r is Ok <==> count <= old(self).limits().max_task_retries,
            r is Ok ==> final(self).usage() == old(self).usage(),
            r matches Err(e) ==> e.is_exhausted("task_retries"@, count as int, old(self).limits().max_task_retries as int)
                && final(self).usage() == violated(old(self).usage()),
    {
        proof {
            use_type_invariant(&*self);
        }
        if count > self.limits.max_task_retries {
            let mut usage: ResourceUsageStats = self.usage;
            usage.total_limit_violations = count_up(usage.total_limit_violations);
            self.usage = usage;
            return Err(DaggerError::resource_exhausted("task_retries", count as u64, self.limits.max_task_retries as u64));
        }
        Ok(())
    }

    /// What is in use.
    pub fn get_usage_stats(&self) -> (r: ResourceUsageStats)
        ensures
            r == self.usage(),
            within(self.limits(), r),
    {
        proof {
            use_type_invariant(self);
        }
        self.usage
    }

    /// The limits.
    pub fn get_limits(&self) -> (r: &ResourceLimits)
        ensures
            *r == self.limits(),
    {
        &self.limits
    }
}

/// Nothing is in use.
pub open spec fn unused() -> ResourceUsageStats {
    ResourceUsageStats {
        memory_usage: 0,
        concurrent_tasks: 0,
        execution_tree_nodes: 0,
        cache_entries: 0,
        file_handles: 0,
        network_connections: 0,
        peak_memory_usage: 0,
        peak_concurrent_tasks: 0,
        total_tasks_executed: 0,
        total_limit_violations: 0,
    }
}

/// The limits are in order, nothing is over its limit, and peaks are as high as what is in
/// use.
pub open spec fn within(l: ResourceLimits, u: ResourceUsageStats) -> bool {
    &&& l.problem() is None
    &&& u.memory_usage <= u.peak_memory_usage <= l.max_memory_bytes
    &&& u.concurrent_tasks <= u.peak_concurrent_tasks <= l.max_concurrent_tasks
    &&& u.execution_tree_nodes <= l.max_execution_tree_nodes
    &&& u.cache_entries <= l.max_cache_entries
    &&& u.file_handles <= l.max_file_handles
    &&& u.network_connections <= l.max_network_connections
}

/// Memory that was taken and given back is free again.
pub proof fn freed_memory_is_free(before: ResourceUsageStats, taken: ResourceUsageStats, after: ResourceUsageStats, bytes: u64)
    requires
        before.memory_usage + bytes <= u64::MAX,
        taken.memory_usage == before.memory_usage + bytes,
        after == (ResourceUsageStats {
            memory_usage: if taken.memory_usage > bytes {
                (taken.memory_usage - bytes) as u64
            } else {
                0
            },
            ..taken
        }),
    ensures
        after.memory_usage == before.memory_usage,
{
}

/// Counting goes up by one, and down by one as long as there is something.
pub proof fn counting_is_by_one(n: u64, m: usize)
    ensures
        n < u64::MAX ==> counted_up(n) == n + 1,
        n == u64::MAX ==> counted_up(n) == 0,
        m > 0 ==> counted_down(m) == m - 1,
        m == 0 ==> counted_down(m) == 0,
{
}

/// Limits are accepted exactly where nothing that is needed is limited to nothing, and the
/// processor's share is above 0 and at most 100 percent.
pub proof fn limits_are_checked(l: &ResourceLimits, r: Result<(), DaggerError>, made: Result<ResourceTracker, DaggerError>)
    requires
        call_ensures(ResourceLimits::validate, (l,), r),
        call_ensures(ResourceTracker::new, (*l,), made),
    ensures
        r is Ok <==> l.max_memory_bytes > 0 && l.max_concurrent_tasks > 0 && l.max_execution_tree_nodes > 0
            && l.max_cache_entries > 0 && l.max_dependency_depth > 0 && l.max_message_size_bytes > 0
            && l.max_channel_queue_size > 0 && !l.max_cpu_usage_percent.at_most(Double { bits: ZERO }) && !(Double {
            bits: HUNDRED,
        }).below(l.max_cpu_usage_percent),
        made is Ok <==> r is Ok,
        made matches Ok(t) ==> t.limits() == l && t.usage().memory_usage == 0 && t.usage().concurrent_tasks == 0
            && t.usage().execution_tree_nodes == 0 && t.usage().cache_entries == 0 && t.usage().file_handles == 0
            && t.usage().network_connections == 0 && t.usage().total_tasks_executed == 0 && t.usage().total_limit_violations
            == 0 && t.started() is None,
        l.max_memory_bytes == 0 ==> (r matches Err(DaggerError::Configuration { message, .. }) && message@
            == "max_memory_bytes must be greater than 0"@),
        l.max_memory_bytes > 0 && l.max_concurrent_tasks == 0 ==> (r matches Err(DaggerError::Configuration { message, .. })
            && message@ == "max_concurrent_tasks must be greater than 0"@),
{
}

/// The sets of limits that are at hand.
pub proof fn limits_at_hand(usual: ResourceLimits, narrow: ResourceLimits, wide: ResourceLimits)
    requires
        call_ensures(ResourceLimits::default, (), usual),
        call_ensures(ResourceLimits::conservative, (), narrow),
        call_ensures(ResourceLimits::aggressive, (), wide),
    ensures
        usual.max_memory_bytes == 1_000_000_000 && narrow.max_memory_bytes == 100_000_000 && wide.max_memory_bytes == 8_000_000_000,
        usual.max_concurrent_tasks == 100 && narrow.max_concurrent_tasks == 10 && wide.max_concurrent_tasks == 1000,
        usual.max_execution_tree_nodes == 10_000 && narrow.max_execution_tree_nodes == 1_000 && wide.max_execution_tree_nodes
            == 100_000,
        usual.max_cache_entries == 50_000 && narrow.max_cache_entries == 5_000 && wide.max_cache_entries == 500_000,
        usual.max_file_handles == 1_000 && narrow.max_file_handles == 100 && wide.max_file_handles == 10_000,
        usual.max_network_connections == 100 && narrow.max_network_connections == 10 && wide.max_network_connections == 1000,
        nanos(usual.max_task_execution_time) == 300_000_000_000 && nanos(narrow.max_task_execution_time) == 30_000_000_000
            && nanos(wide.max_task_execution_time) == 1_800_000_000_000,
        nanos(usual.max_total_execution_time) == 3_600_000_000_000 && nanos(narrow.max_total_execution_time)
            == 300_000_000_000 && nanos(wide.max_total_execution_time) == 14_400_000_000_000,
        usual.max_dependency_depth == 20 && narrow.max_dependency_depth == 10 && wide.max_dependency_depth == 50,
        usual.max_task_retries == 5 && narrow.max_task_retries == 3 && wide.max_task_retries == 10,
        usual.max_message_size_bytes == 10_000_000 && narrow.max_message_size_bytes == 1_000_000 && wide.max_message_size_bytes
            == 100_000_000,
        usual.max_channel_queue_size == 1_000 && narrow.max_channel_queue_size == 100 && wide.max_channel_queue_size == 10_000,
{
}

/// Whether a refusal says that of `name` `wanted` were wanted and `most` may be had, and whether
/// it is counted.
pub open spec fn refused(e: DaggerError, name: Seq<char>, wanted: int, most: int, before: ResourceUsageStats, after: ResourceUsageStats) -> bool {
    &&& e matches DaggerError::ResourceExhaustion { resource, current, limit, details } && resource@ == name && current
        == wanted && limit == most
    &&& before.total_limit_violations < u64::MAX ==> after.total_limit_violations == before.total_limit_violations + 1
    &&& after.memory_usage == before.memory_usage && after.concurrent_tasks == before.concurrent_tasks
        && after.execution_tree_nodes == before.execution_tree_nodes && after.cache_entries == before.cache_entries
        && after.file_handles == before.file_handles && after.network_connections == before.network_connections
        && after.total_tasks_executed == before.total_tasks_executed
}

/// Memory is had exactly where that keeps within its limit, and is free again once it was given
/// back; the peak is the most that was ever in use.
pub proof fn memory_is_taken_and_given_back(
    a: &mut ResourceTracker,
    bytes: u64,
    r: Result<MemoryAllocation, DaggerError>,
    b: &mut ResourceTracker,
    allocation: MemoryAllocation,
)
    requires
        call_ensures(ResourceTracker::allocate_memory, (a, bytes), r),
        call_ensures(ResourceTracker::deallocate_memory, (b, allocation), ()),
    ensures
        r is Ok <==> old(a).usage().memory_usage + bytes <= old(a).limits().max_memory_bytes,
        r is Ok ==> final(a).usage().memory_usage == old(a).usage().memory_usage + bytes && final(a).usage().peak_memory_usage >= final(a).usage().memory_usage && final(a).usage().peak_memory_usage >= old(a).usage().peak_memory_usage && (final(a).usage().peak_memory_usage == final(a).usage().memory_usage || final(a).usage().peak_memory_usage == old(a).usage().peak_memory_usage),
        r matches Err(e) ==> refused(
            e,
            "memory"@,
            old(a).usage().memory_usage + bytes,
            old(a).limits().max_memory_bytes as int,
            old(a).usage(),
            final(a).usage(),
        ),
        r is Ok && *old(b) == *final(a) && allocation == r->Ok_0 ==> final(b).usage().memory_usage == old(a).usage().memory_usage,
        allocation.bytes <= old(b).usage().memory_usage ==> final(b).usage().memory_usage == old(b).usage().memory_usage
            - allocation.bytes,
{
}

/// A task starts exactly where one more may run, and ends with room for another; that it took
/// longer than it may is said.
pub proof fn tasks_start_and_end(
    a: &mut ResourceTracker,
    start: u128,
    r: Result<TaskExecution, DaggerError>,
    b: &mut ResourceTracker,
    task: TaskExecution,
    end: u128,
    s: Result<(), DaggerError>,
)
    requires
        call_ensures(ResourceTracker::start_task, (a, start), r),
        call_ensures(ResourceTracker::end_task, (b, task, end), s),
    ensures
        r is Ok <==> old(a).usage().concurrent_tasks < old(a).limits().max_concurrent_tasks,
        r matches Ok(t) ==> t.start == start && final(a).usage().concurrent_tasks == old(a).usage().concurrent_tasks + 1,
        r is Ok && old(a).usage().total_tasks_executed < u64::MAX ==> final(a).usage().total_tasks_executed == old(a).usage().total_tasks_executed + 1,
        r matches Err(e) ==> refused(
            e,
            "concurrent_tasks"@,
            old(a).usage().concurrent_tasks + 1,
            old(a).limits().max_concurrent_tasks as int,
            old(a).usage(),
            final(a).usage(),
        ),
        r is Ok && *old(b) == *final(a) ==> final(b).usage().concurrent_tasks == old(a).usage().concurrent_tasks,
        s is Ok <==> end - task.start <= nanos(old(b).limits().max_task_execution_time),
        s matches Err(e) ==> (e matches DaggerError::Timeout { operation, timeout_ms } && operation@ == "task_execution"@ && ((
        end - task.start) / 1_000_000 <= u64::MAX ==> timeout_ms == (end - task.start) / 1_000_000)),
{
}

/// Nodes, cache entries, files and connections are had one by one, each exactly where its own
/// limit leaves one more.
pub proof fn places_are_counted(
    nodes: &mut ResourceTracker,
    node: Result<(), DaggerError>,
    entries: &mut ResourceTracker,
    entry: Result<(), DaggerError>,
    files: &mut ResourceTracker,
    file: Result<FileHandle, DaggerError>,
    connections: &mut ResourceTracker,
    connection: Result<NetworkConnection, DaggerError>,
)
    requires
        call_ensures(ResourceTracker::add_execution_tree_node, (nodes,), node),
        call_ensures(ResourceTracker::add_cache_entry, (entries,), entry),
        call_ensures(ResourceTracker::open_file_handle, (files,), file),
        call_ensures(ResourceTracker::open_network_connection, (connections,), connection),
    ensures
        node is Ok <==> old(nodes).usage().execution_tree_nodes < old(nodes).limits().max_execution_tree_nodes,
        node is Ok ==> final(nodes).usage().execution_tree_nodes == old(nodes).usage().execution_tree_nodes + 1,
        node matches Err(e) ==> refused(
            e,
            "execution_tree_nodes"@,
            old(nodes).usage().execution_tree_nodes + 1,
            old(nodes).limits().max_execution_tree_nodes as int,
            old(nodes).usage(),
            final(nodes).usage(),
        ),
        entry is Ok <==> old(entries).usage().cache_entries < old(entries).limits().max_cache_entries,
        entry is Ok ==> final(entries).usage().cache_entries == old(entries).usage().cache_entries + 1,
        entry matches Err(e) ==> refused(
            e,
            "cache_entries"@,
            old(entries).usage().cache_entries + 1,
            old(entries).limits().max_cache_entries as int,
            old(entries).usage(),
            final(entries).usage(),
        ),
        file is Ok <==> old(files).usage().file_handles < old(files).limits().max_file_handles,
        file is Ok ==> final(files).usage().file_handles == old(files).usage().file_handles + 1,
        file matches Err(e) ==> refused(
            e,
            "file_handles"@,
            old(files).usage().file_handles + 1,
            old(files).limits().max_file_handles as int,
            old(files).usage(),
            final(files).usage(),
        ),
        connection is Ok <==> old(connections).usage().network_connections < old(connections).limits().max_network_connections,
        connection is Ok ==> final(connections).usage().network_connections == old(connections).usage().network_connections + 1,
        connection matches Err(e) ==> refused(
            e,
            "network_connections"@,
            old(connections).usage().network_connections + 1,
            old(connections).limits().max_network_connections as int,
            old(connections).usage(),
            final(connections).usage(),
        ),
{
}

/// A place that is given back is free again, and only that one.
pub proof fn places_are_given_back(
    nodes: &mut ResourceTracker,
    entries: &mut ResourceTracker,
    files: &mut ResourceTracker,
    file: FileHandle,
    connections: &mut ResourceTracker,
    connection: NetworkConnection,
)
    requires
        call_ensures(ResourceTracker::remove_execution_tree_node, (nodes,), ()),
        call_ensures(ResourceTracker::remove_cache_entry, (entries,), ()),
        call_ensures(ResourceTracker::close_file_handle, (files, file), ()),
        call_ensures(ResourceTracker::close_network_connection, (connections, connection), ()),
    ensures
        old(nodes).usage().execution_tree_nodes > 0 ==> final(nodes).usage().execution_tree_nodes == old(nodes).usage().execution_tree_nodes - 1 && final(nodes).usage().cache_entries == old(nodes).usage().cache_entries,
        old(entries).usage().cache_entries > 0 ==> final(entries).usage().cache_entries == old(entries).usage().cache_entries - 1
            && final(entries).usage().execution_tree_nodes == old(entries).usage().execution_tree_nodes,
        old(files).usage().file_handles > 0 ==> final(files).usage().file_handles == old(files).usage().file_handles - 1
            && final(files).usage().network_connections == old(files).usage().network_connections,
        old(connections).usage().network_connections > 0 ==> final(connections).usage().network_connections == old(connections).usage().network_connections - 1 && final(connections).usage().file_handles == old(connections).usage().file_handles,
{
}

/// Sizes, depths and retries are let through up to their limits.
pub proof fn sizes_depths_and_retries_have_limits(
    a: &mut ResourceTracker,
    size: usize,
    r: Result<(), DaggerError>,
    b: &mut ResourceTracker,
    depth: usize,
    s: Result<(), DaggerError>,
    c: &mut ResourceTracker,
    count: u32,
    t: Result<(), DaggerError>,
)
    requires
        call_ensures(ResourceTracker::validate_message_size, (a, size), r),
        call_ensures(ResourceTracker::validate_dependency_depth, (b, depth), s),
        call_ensures(ResourceTracker::validate_retry_count, (c, count), t),
    ensures
        r is Ok <==> size <= old(a).limits().max_message_size_bytes,
        r matches Err(e) ==> refused(
            e,
            "message_size"@,
            size as int,
            old(a).limits().max_message_size_bytes as int,
            old(a).usage(),
            final(a).usage(),
        ),
        s is Ok <==> depth <= old(b).limits().max_dependency_depth,
        s matches Err(e) ==> refused(
            e,
            "dependency_depth"@,
            depth as int,
            old(b).limits().max_dependency_depth as int,
            old(b).usage(),
            final(b).usage(),
        ),
        t is Ok <==> count <= old(c).limits().max_task_retries,
        t matches Err(e) ==> refused(
            e,
            "task_retries"@,
            count as int,
            old(c).limits().max_task_retries as int,
            old(c).usage(),
            final(c).usage(),
        ),
{
}

/// Execution may last as long as the limits say, from its start.
pub proof fn execution_time_has_a_limit(t: &ResourceTracker, now: u128, r: Result<(), DaggerError>)
    requires
        call_ensures(ResourceTracker::check_execution_time, (t, now), r),
    ensures
        t.started() is None ==> r is Ok,
        t.started() matches Some(start) ==> (r is Ok <==> now - start <= nanos(t.limits().max_total_execution_time)),
        r matches Err(e) ==> (e matches DaggerError::Timeout { operation, timeout_ms } && operation@ == "total_execution"@ && (
        t.started() matches Some(start) && ((now - start) / 1_000_000 <= u64::MAX ==> timeout_ms == (now - start) / 1_000_000))),
{
}

/// The highest of six percentages is none but one of them or 0, and none lies over it.
pub proof fn highest_percentage_is_highest(u: &ResourceUtilization, r: Double)
    requires
        call_ensures(ResourceUtilization::max_utilization, (u,), r),
    ensures
        !r.below(u.memory_utilization) && !r.below(u.task_utilization) && !r.below(u.tree_utilization) && !r.below(
            u.cache_utilization,
        ) && !r.below(u.file_utilization) && !r.below(u.network_utilization),
        r.bits == ZERO || r == u.memory_utilization || r == u.task_utilization || r == u.tree_utilization || r
            == u.cache_utilization || r == u.file_utilization || r == u.network_utilization,
{
}

/// What is wrong with limits is named: the first limit that is, in a fixed order.
pub proof fn limit_errors_are_named(l: &ResourceLimits, r: Result<(), DaggerError>)
    requires
        call_ensures(ResourceLimits::validate, (l,), r),
        l.max_memory_bytes > 0,
        l.max_concurrent_tasks > 0,
    ensures
        l.max_execution_tree_nodes == 0 ==> (r matches Err(DaggerError::Configuration { message, .. }) && message@
            == "max_execution_tree_nodes must be greater than 0"@),
        l.max_execution_tree_nodes > 0 && l.max_cache_entries == 0 ==> (r matches Err(
            DaggerError::Configuration { message, .. },
        ) && message@ == "max_cache_entries must be greater than 0"@),
        l.max_execution_tree_nodes > 0 && l.max_cache_entries > 0 && l.max_dependency_depth == 0 ==> (r matches Err(
            DaggerError::Configuration { message, .. },
        ) && message@ == "max_dependency_depth must be greater than 0"@),
        l.max_execution_tree_nodes > 0 && l.max_cache_entries > 0 && l.max_dependency_depth > 0 && (
        l.max_cpu_usage_percent.at_most(Double { bits: ZERO }) || (Double { bits: HUNDRED }).below(l.max_cpu_usage_percent))
            ==> (r matches Err(DaggerError::Configuration { message, .. }) && message@
            == "max_cpu_usage_percent must be between 0 and 100"@),
        l.max_execution_tree_nodes > 0 && l.max_cache_entries > 0 && l.max_dependency_depth > 0
            && !l.max_cpu_usage_percent.at_most(Double { bits: ZERO }) && !(Double { bits: HUNDRED }).below(
            l.max_cpu_usage_percent,
        ) && l.max_message_size_bytes == 0 ==> (r matches Err(
            DaggerError::Configuration { message, .. },
        ) && message@ == "max_message_size_bytes must be greater than 0"@),
        l.max_execution_tree_nodes > 0 && l.max_cache_entries > 0 && l.max_dependency_depth > 0
            && !l.max_cpu_usage_percent.at_most(Double { bits: ZERO }) && !(Double { bits: HUNDRED }).below(
            l.max_cpu_usage_percent,
        ) && l.max_message_size_bytes > 0 && l.max_channel_queue_size == 0 ==> (
        r matches Err(DaggerError::Configuration { message, .. }) && message@ == "max_channel_queue_size must be greater than 0"@),
{
}

/// The limits are near where more than eighty percent of anything is in use.
pub proof fn limits_are_near(u: &ResourceUtilization, r: bool)
    requires
        call_ensures(ResourceUtilization::is_approaching_limits, (u,), r),
    ensures
        r <==> (Double { bits: EIGHTY }).below(u.memory_utilization) || (Double { bits: EIGHTY }).below(u.task_utilization) || (
        Double { bits: EIGHTY }).below(u.tree_utilization) || (Double { bits: EIGHTY }).below(u.cache_utilization) || (Double {
            bits: EIGHTY,
        }).below(u.file_utilization) || (Double { bits: EIGHTY }).below(u.network_utilization),
{
}

/// What is in use never lies above the limits.
pub proof fn usage_is_within_limits(t: &ResourceTracker, r: ResourceUsageStats)
    requires
        call_ensures(ResourceTracker::get_usage_stats, (t,), r),
    ensures
        r == t.usage(),
        r.memory_usage <= r.peak_memory_usage && r.peak_memory_usage <= t.limits().max_memory_bytes,
        r.concurrent_tasks <= r.peak_concurrent_tasks && r.peak_concurrent_tasks <= t.limits().max_concurrent_tasks,
        r.execution_tree_nodes <= t.limits().max_execution_tree_nodes && r.cache_entries <= t.limits().max_cache_entries,
        r.file_handles <= t.limits().max_file_handles && r.network_connections <= t.limits().max_network_connections,
{
}

} // verus!
