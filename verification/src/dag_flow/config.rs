//! How a workflow is executed.

use crate::double::{Double, TWO};
use vstd::prelude::*;

verus! {

/// What to execute: a workflow given by name or by task.
#[derive(Debug, Clone)]
pub enum WorkflowSpec {
    /// A workflow that was loaded before, by name.
    Static { name: String },
    /// A workflow that an agent grows from a task.
    Agent { task: String },
}

/// How a workflow comes about.
#[derive(Debug, Clone, Copy, PartialEq, Eq, Structural)]
pub enum ExecutionMode {
    /// It was loaded before.
    Static,
    /// An agent grows it.
    Agent,
}

impl Default for ExecutionMode {
    fn default() -> (r: Self)
        ensures
            r == ExecutionMode::Static,
    {
        ExecutionMode::Static
    }
}

impl WorkflowSpec {
    /// The mode and the name under which the workflow is executed.
    pub fn into_parts(self) -> (r: (ExecutionMode, String))
        ensures
            self matches WorkflowSpec::Static { name } ==> r == (ExecutionMode::Static, name),
            self matches WorkflowSpec::Agent { task } ==> r == (ExecutionMode::Agent, task),
    {
        match self {
            WorkflowSpec::Static { name } => (ExecutionMode::Static, name),
            WorkflowSpec::Agent { task } => (ExecutionMode::Agent, task),
        }
    }
}

/// How long to wait between attempts.
#[derive(Debug, Clone, Copy, PartialEq, Eq, Structural)]
pub enum RetryStrategy {
    /// The delay grows by a factor with each attempt, up to a limit.
    Exponential { initial_delay_secs: u64, max_delay_secs: u64, multiplier: Double },
    /// The delay is always the same.
    Linear { delay_secs: u64 },
    /// No delay.
    Immediate,
}

/// A delay that starts at two seconds and doubles, up to a minute.
pub open spec fn default_strategy() -> RetryStrategy {
    RetryStrategy::Exponential { initial_delay_secs: 2, max_delay_secs: 60, multiplier: Double { bits: TWO } }
}

impl Default for RetryStrategy {
    fn default() -> (r: Self)
        ensures
            r == default_strategy(),
    {
        RetryStrategy::Exponential {
            initial_delay_secs: 2,
            max_delay_secs: 60,
            multiplier: Double { bits: TWO },
        }
    }
}

/// The delay in seconds before the next attempt, where `grown` is the initial delay times
/// the multiplier to the power of the attempts so far, rounded.
pub open spec fn retry_delay(strategy: RetryStrategy, grown: u64) -> u64 {
    match strategy {
        RetryStrategy::Exponential { initial_delay_secs, max_delay_secs, multiplier } => if grown
            < max_delay_secs {
            grown
        } else {
            max_delay_secs
        },
        RetryStrategy::Linear { delay_secs } => delay_secs,
        RetryStrategy::Immediate => 0,
    }
}

/// The delay in seconds before the next attempt. `grown` is the unbounded exponential
/// delay, which the other strategies ignore.
pub fn calculate_retry_delay(strategy: &RetryStrategy, grown: u64) -> (r: u64)
    ensures
        r == retry_delay(*strategy, grown),
{
    match *strategy {
        RetryStrategy::Exponential { initial_delay_secs: _, max_delay_secs, multiplier: _ } => {
            if grown < max_delay_secs {
                grown
            } else {
                max_delay_secs
            }
        },
        RetryStrategy::Linear { delay_secs } => delay_secs,
        RetryStrategy::Immediate => 0,
    }
}

/// What to do when a node fails.
#[derive(Debug, Clone, Copy, PartialEq, Eq, Structural)]
pub enum OnFailure {
    /// Go on with the other nodes.
    Continue,
    /// Save the state and stop.
    Pause,
    /// Stop.
    Stop,
}

/// What to do when a human does not answer in time.
#[derive(Debug, Clone, Copy, PartialEq, Eq, Structural)]
pub enum HumanTimeoutAction {
    /// Go on without the answer.
    Autopilot,
    /// Pause.
    Pause,
}

/// How a workflow is executed.
#[derive(Debug, Clone, Copy)]
pub struct DagConfig {
    /// How often a node is tried.
    pub max_attempts: Option<u8>,
    /// What to do when a node fails.
    pub on_failure: OnFailure,
    /// How long the workflow may run, in seconds.
    pub timeout_seconds: Option<u64>,
    /// How long to wait for a human; `None` waits without limit.
    pub human_wait_minutes: Option<u32>,
    /// What to do when a human does not answer in time.
    pub human_timeout_action: HumanTimeoutAction,
    /// How many tokens may be spent.
    pub max_tokens: Option<u64>,
    /// How many iterations are allowed.
    pub max_iterations: Option<u32>,
    /// After how many iterations a human reviews.
    pub review_frequency: Option<u32>,
    /// How long to wait between attempts.
    pub retry_strategy: RetryStrategy,
    /// Whether independent nodes run at the same time.
    pub enable_parallel_execution: bool,
    /// How many nodes run at the same time.
    pub max_parallel_nodes: usize,
    /// Whether the cache is saved while the workflow runs.
    pub enable_incremental_cache: bool,
    /// How often the cache is saved, in seconds.
    pub cache_snapshot_interval: u64,
}

/// How many nodes run at the same time unless told otherwise.
pub fn default_max_parallel_nodes() -> (r: usize)
    ensures
        r == 3,
{
    3
}

/// How often the cache is saved unless told otherwise: every five minutes.
pub fn default_cache_snapshot_interval() -> (r: u64)
    ensures
        r == 300,
{
    300
}

/// The configuration that holds unless told otherwise.
pub open spec fn default_config() -> DagConfig {
    DagConfig {
        max_attempts: Some(3),
        on_failure: OnFailure::Pause,
        timeout_seconds: Some(3600),
        human_wait_minutes: None,
        human_timeout_action: HumanTimeoutAction::Pause,
        max_tokens: None,
        max_iterations: Some(50),
        review_frequency: Some(5),
        retry_strategy: RetryStrategy::Exponential {
            initial_delay_secs: 2,
            max_delay_secs: 60,
            multiplier: Double { bits: TWO },
        },
        enable_parallel_execution: true,
        max_parallel_nodes: 3,
        enable_incremental_cache: false,
        cache_snapshot_interval: 300,
    }
}

impl Default for DagConfig {
    fn default() -> (r: Self)
        ensures
            r == default_config(),
    {
        DagConfig {
            max_attempts: Some(3),
            on_failure: OnFailure::Pause,
            timeout_seconds: Some(3600),
            human_wait_minutes: None,
            human_timeout_action: HumanTimeoutAction::Pause,
            max_tokens: None,
            max_iterations: Some(50),
            review_frequency: Some(5),
            retry_strategy: RetryStrategy::default(),
            enable_parallel_execution: true,
            max_parallel_nodes: 3,
            enable_incremental_cache: false,
            cache_snapshot_interval: default_cache_snapshot_interval(),
        }
    }
}

/// What is wrong with a configuration: the first rule that it breaks.
pub open spec fn config_problem(c: DagConfig) -> Option<Seq<char>> {
    if c.max_attempts == Some(0u8) {
        Some("max_attempts must be greater than 0"@)
    } else if c.timeout_seconds == Some(0u64) {
        Some("timeout_seconds must be greater than 0"@)
    } else if c.timeout_seconds is Some && c.timeout_seconds->0 > 86400 {
        Some("timeout_seconds cannot exceed 24 hours"@)
    } else if c.human_wait_minutes is Some && c.human_wait_minutes->0 > 1440 {
        Some("human_wait_minutes cannot exceed 24 hours"@)
    } else if c.max_iterations == Some(0u32) {
        Some("max_iterations must be greater than 0"@)
    } else if c.max_iterations is Some && c.max_iterations->0 > 1000 {
        Some("max_iterations cannot exceed 1000"@)
    } else if c.review_frequency == Some(0u32) {
        Some("review_frequency must be greater than 0"@)
    } else {
        None
    }
}

/// The second configuration where it says something, the first elsewhere.
pub open spec fn overridden(base: DagConfig, over: DagConfig) -> DagConfig {
    DagConfig {
        max_attempts: if over.max_attempts is Some {
            over.max_attempts
        } else {
            base.max_attempts
        },
        on_failure: over.on_failure,
        timeout_seconds: if over.timeout_seconds is Some {
            over.timeout_seconds
        } else {
            base.timeout_seconds
        },
        human_wait_minutes: if over.human_wait_minutes is Some {
            over.human_wait_minutes
        } else {
            base.human_wait_minutes
        },
        human_timeout_action: over.human_timeout_action,
        max_tokens: if over.max_tokens is Some {
            over.max_tokens
        } else {
            base.max_tokens
        },
        max_iterations: if over.max_iterations is Some {
            over.max_iterations
        } else {
            base.max_iterations
        },
        review_frequency: if over.review_frequency is Some {
            over.review_frequency
        } else {
            base.review_frequency
        },
        retry_strategy: over.retry_strategy,
        enable_parallel_execution: over.enable_parallel_execution,
        max_parallel_nodes: if over.enable_parallel_execution {
            over.max_parallel_nodes
        } else {
            base.max_parallel_nodes
        },
        enable_incremental_cache: over.enable_incremental_cache,
        cache_snapshot_interval: if over.enable_incremental_cache {
            over.cache_snapshot_interval
        } else {
            base.cache_snapshot_interval
        },
    }
}

impl DagConfig {
    /// Checks the configuration; an error says which rule it breaks first.
    pub fn validate(&self) -> (r: Result<(), String>)
        ensures
            r is Ok <==> config_problem(*self) is None,
            r matches Err(e) ==> config_problem(*self) == Some(e@),
    {
        if let Some(attempts) = self.max_attempts {
            if attempts == 0 {
                return Err("max_attempts must be greater than 0".to_owned());
            }
        }
        if let Some(timeout) = self.timeout_seconds {
            if timeout == 0 {
                return Err("timeout_seconds must be greater than 0".to_owned());
            }
            if timeout > 86400 {
                return Err("timeout_seconds cannot exceed 24 hours".to_owned());
            }
        }
        if let Some(wait) = self.human_wait_minutes {
            if wait > 1440 {
                return Err("human_wait_minutes cannot exceed 24 hours".to_owned());
            }
        }
        if let Some(iterations) = self.max_iterations {
            if iterations == 0 {
                return Err("max_iterations must be greater than 0".to_owned());
            }
            if iterations > 1000 {
                return Err("max_iterations cannot exceed 1000".to_owned());
            }
        }
        if let Some(freq) = self.review_frequency {
            if freq == 0 {
                return Err("review_frequency must be greater than 0".to_owned());
            }
        }
        Ok(())
    }

    /// Merges two configurations; the second takes precedence. The outcome is checked.
    pub fn merge(base: &Self, override_with: &Self) -> (r: Result<Self, String>)
        ensures
            r is Ok <==> config_problem(overridden(*base, *override_with)) is None,
            r matches Ok(c) ==> c == overridden(*base, *override_with),
            r matches Err(e) ==> config_problem(overridden(*base, *override_with)) == Some(e@),
    {
        let merged = DagConfig {
            max_attempts: if override_with.max_attempts.is_some() {
                override_with.max_attempts
            } else {
                base.max_attempts
            },
            on_failure: override_with.on_failure,
            timeout_seconds: if override_with.timeout_seconds.is_some() {
                override_with.timeout_seconds
            } else {
                base.timeout_seconds
            },
            human_wait_minutes: if override_with.human_wait_minutes.is_some() {
                override_with.human_wait_minutes
            } else {
                base.human_wait_minutes
            },
            human_timeout_action: override_with.human_timeout_action,
            max_tokens: if override_with.max_tokens.is_some() {
                override_with.max_tokens
            } else {
                base.max_tokens
            },
            max_iterations: if override_with.max_iterations.is_some() {
                override_with.max_iterations
            } else {
                base.max_iterations
            },
            review_frequency: if override_with.review_frequency.is_some() {
                override_with.review_frequency
            } else {
                base.review_frequency
            },
            retry_strategy: override_with.retry_strategy,
            enable_parallel_execution: override_with.enable_parallel_execution,
            max_parallel_nodes: if override_with.enable_parallel_execution {
                override_with.max_parallel_nodes
            } else {
                base.max_parallel_nodes
            },
            enable_incremental_cache: override_with.enable_incremental_cache,
            cache_snapshot_interval: if override_with.enable_incremental_cache {
                override_with.cache_snapshot_interval
            } else {
                base.cache_snapshot_interval
            },
        };
        match merged.validate() {
            Ok(()) => Ok(merged),
            Err(e) => Err(e),
        }
    }
}

/// The default configuration breaks no rule.
pub proof fn default_config_is_valid()
    ensures
        config_problem(default_config()) is None,
{
}

/// Two valid configurations merge into a valid one.
pub proof fn merging_keeps_validity(base: DagConfig, over: DagConfig)
    requires
        config_problem(base) is None,
        config_problem(over) is None,
    ensures
        config_problem(overridden(base, over)) is None,
{
}

/// A configuration merged over itself is unchanged.
pub proof fn merging_is_idempotent(c: DagConfig)
    ensures
        overridden(c, c) == c,
{
}

/// Merging is associative, where a later configuration does not switch off parallel
/// execution or the incremental cache again.
pub proof fn merging_is_associative(a: DagConfig, b: DagConfig, c: DagConfig)
    requires
        b.enable_parallel_execution ==> c.enable_parallel_execution,
        b.enable_incremental_cache ==> c.enable_incremental_cache,
    ensures
        overridden(overridden(a, b), c) == overridden(a, overridden(b, c)),
{
}

/// Metadata about the state of an execution.
#[derive(Debug, Clone)]
pub struct DagMetadata {
    pub status: String,
    pub task: String,
}

/// A configuration that is merged over another wins: it decides everything that it always says,
/// and each optional thing that it says; the other decides only where it says nothing. How many
/// nodes run beside each other and how often the cache is saved it decides where it asks for
/// nodes beside each other and for a saved cache.
pub proof fn override_wins(base: &DagConfig, over: &DagConfig, r: Result<DagConfig, String>)
    requires
        call_ensures(DagConfig::merge, (base, over), r),
        r is Ok,
    ensures
        r matches Ok(c) ==> {
            &&& c.on_failure == over.on_failure
            &&& c.human_timeout_action == over.human_timeout_action
            &&& c.retry_strategy == over.retry_strategy
            &&& c.enable_parallel_execution == over.enable_parallel_execution
            &&& c.enable_incremental_cache == over.enable_incremental_cache
            &&& over.max_attempts is Some ==> c.max_attempts == over.max_attempts
            &&& over.max_attempts is None ==> c.max_attempts == base.max_attempts
            &&& over.timeout_seconds is Some ==> c.timeout_seconds == over.timeout_seconds
            &&& over.timeout_seconds is None ==> c.timeout_seconds == base.timeout_seconds
            &&& over.human_wait_minutes is Some ==> c.human_wait_minutes == over.human_wait_minutes
            &&& over.human_wait_minutes is None ==> c.human_wait_minutes == base.human_wait_minutes
            &&& over.max_tokens is Some ==> c.max_tokens == over.max_tokens
            &&& over.max_tokens is None ==> c.max_tokens == base.max_tokens
            &&& over.max_iterations is Some ==> c.max_iterations == over.max_iterations
            &&& over.max_iterations is None ==> c.max_iterations == base.max_iterations
            &&& over.review_frequency is Some ==> c.review_frequency == over.review_frequency
            &&& over.review_frequency is None ==> c.review_frequency == base.review_frequency
            &&& over.enable_parallel_execution ==> c.max_parallel_nodes == over.max_parallel_nodes
            &&& !over.enable_parallel_execution ==> c.max_parallel_nodes == base.max_parallel_nodes
            &&& over.enable_incremental_cache ==> c.cache_snapshot_interval == over.cache_snapshot_interval
            &&& !over.enable_incremental_cache ==> c.cache_snapshot_interval == base.cache_snapshot_interval
        },
{
}

/// Whether each number of a configuration is in its range.
pub open spec fn in_range(c: DagConfig) -> bool {
    &&& c.max_attempts matches Some(n) ==> n >= 1
    &&& c.timeout_seconds matches Some(n) ==> 1 <= n <= 86400
    &&& c.human_wait_minutes matches Some(n) ==> n <= 1440
    &&& c.max_iterations matches Some(n) ==> 1 <= n <= 1000
    &&& c.review_frequency matches Some(n) ==> n >= 1
}

/// A configuration is accepted exactly where each of its numbers is in its range, and so is one
/// that is merged over another; two accepted configurations merge into one.
pub proof fn numbers_have_their_range(
    base: &DagConfig,
    over: &DagConfig,
    checked: Result<(), String>,
    merged: Result<DagConfig, String>,
)
    requires
        call_ensures(DagConfig::validate, (over,), checked),
        call_ensures(DagConfig::merge, (base, over), merged),
    ensures
        checked is Ok <==> in_range(*over),
        merged matches Ok(c) ==> in_range(c),
        in_range(*base) && in_range(*over) ==> merged is Ok,
{
}

/// What is wrong with a configuration is named, the first thing first.
pub proof fn range_errors_are_named(c: &DagConfig, r: Result<(), String>)
    requires
        call_ensures(DagConfig::validate, (c,), r),
    ensures
        c.max_attempts == Some(0u8) ==> (r matches Err(e) && e@ == "max_attempts must be greater than 0"@),
        c.max_attempts != Some(0u8) && c.timeout_seconds == Some(0u64) ==> (r matches Err(e) && e@
            == "timeout_seconds must be greater than 0"@),
        c.max_attempts != Some(0u8) && c.timeout_seconds is Some && c.timeout_seconds->0 > 86400 ==> (r matches Err(e) && e@
            == "timeout_seconds cannot exceed 24 hours"@),
        c.max_attempts != Some(0u8) && c.timeout_seconds is None && c.human_wait_minutes is Some && c.human_wait_minutes->0
            > 1440 ==> (r matches Err(e) && e@ == "human_wait_minutes cannot exceed 24 hours"@),
        c.max_attempts is None && c.timeout_seconds is None && c.human_wait_minutes is None && c.max_iterations == Some(0u32)
            ==> (r matches Err(e) && e@ == "max_iterations must be greater than 0"@),
        c.max_attempts is None && c.timeout_seconds is None && c.human_wait_minutes is None && c.max_iterations is Some
            && c.max_iterations->0 > 1000 ==> (r matches Err(e) && e@ == "max_iterations cannot exceed 1000"@),
        c.max_attempts is None && c.timeout_seconds is None && c.human_wait_minutes is None && c.max_iterations is None
            && c.review_frequency == Some(0u32) ==> (r matches Err(e) && e@ == "review_frequency must be greater than 0"@),
{
}

/// What holds unless told otherwise.
pub proof fn defaults_are_as_documented(c: DagConfig, s: RetryStrategy)
    requires
        call_ensures(DagConfig::default, (), c),
        call_ensures(RetryStrategy::default, (), s),
    ensures
        c.max_attempts == Some(3u8),
        c.on_failure == OnFailure::Pause,
        c.timeout_seconds == Some(3600u64),
        c.human_wait_minutes is None,
        c.human_timeout_action == HumanTimeoutAction::Pause,
        c.max_tokens is None,
        c.max_iterations == Some(50u32),
        c.review_frequency == Some(5u32),
        c.retry_strategy == s,
        s matches RetryStrategy::Exponential { initial_delay_secs, max_delay_secs, multiplier } && initial_delay_secs == 2
            && max_delay_secs == 60 && multiplier.bits == TWO,
        c.enable_parallel_execution,
        c.max_parallel_nodes == 3,
        !c.enable_incremental_cache,
        c.cache_snapshot_interval == 300,
{
}

/// The delay before another attempt is what the strategy asks for: the grown delay, but never
/// more than its limit; always the same; or none.
pub proof fn delay_is_as_asked(strategy: &RetryStrategy, grown: u64, r: u64)
    requires
        call_ensures(calculate_retry_delay, (strategy, grown), r),
    ensures
        *strategy matches RetryStrategy::Exponential { initial_delay_secs, max_delay_secs, multiplier } ==> {
            &&& r <= max_delay_secs
            &&& grown <= max_delay_secs ==> r == grown
            &&& grown > max_delay_secs ==> r == max_delay_secs
        },
        *strategy matches RetryStrategy::Linear { delay_secs } ==> r == delay_secs,
        *strategy is Immediate ==> r == 0,
{
}

} // verus!
