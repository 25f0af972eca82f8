//! Building workflows step by step.

use crate::duration::nanos;
use crate::errors::DaggerError;
use crate::ids::new_uuid;
use crate::string_map::{key_index, lemma_entry, StringMap, StringSet};
use crate::text::{cat2, cat5, contains, holds_text, owned, same, views};
use crate::value::Value;
use std::time::Duration;
use vstd::prelude::*;

verus! {

/// How a workflow is executed.
#[derive(Debug)]
pub struct DagConfig {
    /// What the workflow is called.
    pub name: String,
    /// What it is for.
    pub description: Option<String>,
    /// How long it may run.
    pub max_execution_time: Duration,
    /// How many nodes run at the same time.
    pub max_parallel_nodes: usize,
    /// How failed nodes are tried again.
    pub retry_policy: RetryPolicy,
    /// What to do when a node fails.
    pub error_handling: ErrorHandling,
    /// Whether results are cached.
    pub enable_caching: bool,
    /// Whether metrics are kept.
    pub enable_metrics: bool,
    /// Anything else.
    pub metadata: StringMap<Value>,
}

/// How failed nodes are tried again.
#[derive(Debug)]
pub struct RetryPolicy {
    /// How often.
    pub max_retries: u32,
    /// After which delay at first.
    pub base_delay: Duration,
    /// After which delay at most.
    pub max_delay: Duration,
    /// How the delay grows.
    pub backoff: BackoffStrategy,
    /// After errors of which kinds.
    pub retry_on: Vec<String>,
}

/// How the delay between attempts grows.
#[derive(Debug, Clone, Copy, PartialEq, Eq, Structural)]
pub enum BackoffStrategy {
    /// Not at all.
    Fixed,
    /// By the same amount each time.
    Linear,
    /// It doubles each time.
    Exponential,
    /// It doubles each time, with a random part.
    ExponentialJitter,
}

/// What to do when a node fails.
#[derive(Debug)]
pub enum ErrorHandling {
    /// Stop the workflow.
    StopOnError,
    /// Go on with the nodes that do not depend on it.
    ContinueOnError,
    /// Skip it and go on.
    SkipOnError,
    /// Something of the application's own.
    Custom(String),
}

/// A node of a workflow.
#[derive(Debug)]
pub struct NodeDefinition {
    /// What the node is called in the workflow.
    pub id: String,
    /// What it is called for people.
    pub name: String,
    /// What it is for.
    pub description: Option<String>,
    /// What it does.
    pub node_type: String,
    /// With which settings.
    pub config: Value,
    /// The nodes that come before it.
    pub dependencies: Vec<String>,
    /// How long it may run.
    pub timeout: Option<Duration>,
    /// How it is tried again.
    pub retry_policy: Option<RetryPolicy>,
    /// Whether its result is cached.
    pub cacheable: bool,
    /// Anything else.
    pub metadata: StringMap<Value>,
}

/// Whether `p` is the policy that holds unless told otherwise: three retries, one second at
/// first and a minute at most, doubling, after timeouts, exhaustion and concurrency errors.
pub open spec fn is_default_policy(p: RetryPolicy) -> bool {
    &&& p.max_retries == 3
    &&& nanos(p.base_delay) == 1_000_000_000
    &&& nanos(p.max_delay) == 60_000_000_000
    &&& p.backoff == BackoffStrategy::Exponential
    &&& views(p.retry_on@) == seq!["timeout"@, "resource"@, "concurrency"@]
}

impl Default for RetryPolicy {
    fn default() -> (r: Self)
        ensures
            is_default_policy(r),
    {
        let mut retry_on: Vec<String> = Vec::new();
        retry_on.push(owned("timeout"));
        retry_on.push(owned("resource"));
        retry_on.push(owned("concurrency"));
        proof {
            assert(views(retry_on@) =~= seq!["timeout"@, "resource"@, "concurrency"@]);
        }
        RetryPolicy {
            max_retries: 3,
            base_delay: Duration::from_secs(1),
            max_delay: Duration::from_secs(60),
            backoff: BackoffStrategy::Exponential,
            retry_on,
        }
    }
}

/// Whether `c` is a configuration as it holds unless told otherwise, whatever its name.
pub open spec fn is_default_config(c: DagConfig) -> bool {
    &&& c.description is None
    &&& nanos(c.max_execution_time) == 3600 * 1_000_000_000
    &&& c.max_parallel_nodes == 10
    &&& is_default_policy(c.retry_policy)
    &&& c.error_handling is StopOnError
    &&& c.enable_caching
    &&& c.enable_metrics
    &&& c.metadata@ == Map::<Seq<char>, Value>::empty()
}

fn config_named(name: String) -> (r: DagConfig)
    ensures
        r.name == name,
        is_default_config(r),
{
    DagConfig {
        name,
        description: None,
        max_execution_time: Duration::from_secs(3600),
        max_parallel_nodes: 10,
        retry_policy: RetryPolicy::default(),
        error_handling: ErrorHandling::StopOnError,
        enable_caching: true,
        enable_metrics: true,
        metadata: StringMap::new(),
    }
}

impl Default for DagConfig {
    /// The name is `dag_` and a random identifier.
    fn default() -> (r: Self)
        ensures
            is_default_config(r),
            exists|id: Seq<char>| id.len() == 36 && r.name@ == #[trigger] ("dag_"@ + id),
    {
        let id = new_uuid();
        config_named(cat2("dag_", id.as_str()))
    }
}

impl NodeDefinition {
    /// A node called `id` that does `node_type`.
    pub fn new(id: &str, node_type: &str) -> (r: Self)
        ensures
            r.id@ == id@,
            r.name@ == id@,
            r.node_type@ == node_type@,
            r.is_plain(),
    {
        NodeDefinition {
            name: owned(id),
            id: owned(id),
            description: None,
            node_type: owned(node_type),
            config: Value::Null,
            dependencies: Vec::new(),
            timeout: None,
            retry_policy: None,
            cacheable: true,
            metadata: StringMap::new(),
        }
    }

    /// Nothing but the id, the name and the type is set.
    pub open spec fn is_plain(&self) -> bool {
        &&& self.description is None
        &&& self.config is Null
        &&& self.dependencies@.len() == 0
        &&& self.timeout is None
        &&& self.retry_policy is None
        &&& self.cacheable
        &&& self.metadata@ == Map::<Seq<char>, Value>::empty()
    }
}

/// Whether a workflow runs.
#[derive(Debug, Clone, Copy, PartialEq, Eq, Structural)]
pub enum DagStatus {
    Pending,
    Running,
    Completed,
    Failed,
    Cancelled,
    Paused,
}

/// Whether a node runs.
#[derive(Debug, Clone, Copy, PartialEq, Eq, Structural)]
pub enum NodeStatus {
    Pending,
    Ready,
    Running,
    Completed,
    Failed,
    Skipped,
    Cancelled,
}

/// The state of a node that is executed.
#[derive(Debug)]
pub struct NodeExecutionState {
    pub status: NodeStatus,
    /// When it started, in milliseconds of the executor's clock.
    pub start_time: Option<u64>,
    /// When it ended, in milliseconds of the executor's clock.
    pub end_time: Option<u64>,
    pub attempts: u32,
    pub error: Option<String>,
    pub result: Option<Value>,
}

/// The state of a node that waits.
pub open spec fn pending_state() -> NodeExecutionState {
    NodeExecutionState {
        status: NodeStatus::Pending,
        start_time: None,
        end_time: None,
        attempts: 0,
        error: None,
        result: None,
    }
}

/// Numbers about an execution.
#[derive(Debug)]
pub struct DagExecutionMetrics {
    pub total_nodes: usize,
    pub completed_nodes: usize,
    pub failed_nodes: usize,
    pub skipped_nodes: usize,
    pub total_execution_time: Option<Duration>,
    pub cache_hits: u64,
    pub cache_misses: u64,
    pub retries: u64,
}

/// No node ran yet.
pub open spec fn initial_metrics(total_nodes: usize) -> DagExecutionMetrics {
    DagExecutionMetrics {
        total_nodes,
        completed_nodes: 0,
        failed_nodes: 0,
        skipped_nodes: 0,
        total_execution_time: None,
        cache_hits: 0,
        cache_misses: 0,
        retries: 0,
    }
}

impl Default for DagExecutionMetrics {
    fn default() -> (r: Self)
        ensures
            r == initial_metrics(0),
    {
        DagExecutionMetrics {
            total_nodes: 0,
            completed_nodes: 0,
            failed_nodes: 0,
            skipped_nodes: 0,
            total_execution_time: None,
            cache_hits: 0,
            cache_misses: 0,
            retries: 0,
        }
    }
}

/// The state of a workflow that is executed.
#[derive(Debug)]
pub struct DagExecutionState {
    pub status: DagStatus,
    pub node_states: StringMap<NodeExecutionState>,
    pub start_time: Option<u64>,
    pub end_time: Option<u64>,
    pub error: Option<String>,
    pub metrics: DagExecutionMetrics,
}

/// A workflow that is ready to be executed.
#[derive(Debug)]
pub struct DagExecutionContext {
    pub config: DagConfig,
    pub state: DagExecutionState,
}

/// Builds a retry policy.
#[derive(Debug)]
pub struct RetryPolicyBuilder {
    /// The policy so far.
    pub policy: RetryPolicy,
}

impl RetryPolicyBuilder {
    /// Starts from `policy`.
    pub fn new(policy: RetryPolicy) -> (r: Self)
        ensures
            r.policy == policy,
    {
        RetryPolicyBuilder { policy }
    }

    /// Sets how often a node is tried again.
    pub fn max_retries(self, retries: u32) -> (r: Self)
        ensures
            r.policy == (RetryPolicy { max_retries: retries, ..self.policy }),
    {
        RetryPolicyBuilder { policy: RetryPolicy { max_retries: retries, ..self.policy } }
    }

    /// Sets the first delay.
    pub fn base_delay(self, delay: Duration) -> (r: Self)
        ensures
            r.policy == (RetryPolicy { base_delay: delay, ..self.policy }),
    {
        RetryPolicyBuilder { policy: RetryPolicy { base_delay: delay, ..self.policy } }
    }

    /// Sets the longest delay.
    pub fn max_delay(self, delay: Duration) -> (r: Self)
        ensures
            r.policy == (RetryPolicy { max_delay: delay, ..self.policy }),
    {
        RetryPolicyBuilder { policy: RetryPolicy { max_delay: delay, ..self.policy } }
    }

    /// Sets how the delay grows.
    pub fn backoff(self, strategy: BackoffStrategy) -> (r: Self)
        ensures
            r.policy == (RetryPolicy { backoff: strategy, ..self.policy }),
    {
        RetryPolicyBuilder { policy: RetryPolicy { backoff: strategy, ..self.policy } }
    }

    /// Sets after errors of which kinds a node is tried again.
    pub fn retry_on(self, errors: Vec<&str>) -> (r: Self)
        ensures
            r.policy == (RetryPolicy { retry_on: r.policy.retry_on, ..self.policy }),
            r.policy.retry_on@.len() == errors@.len(),
            forall|i: int| 0 <= i < errors@.len() ==> (#[trigger] r.policy.retry_on@[i])@ == errors@[i]@,
    {
        let mut retry_on: Vec<String> = Vec::new();
        let mut i: usize = 0;
        while i < errors.len()
            invariant
                i <= errors.len(),
                retry_on@.len() == i,
                forall|j: int| 0 <= j < i ==> (#[trigger] retry_on@[j])@ == errors@[j]@,
            decreases errors.len() - i,
        {
            retry_on.push(owned(errors[i]));
            i = i + 1;
        }
        RetryPolicyBuilder { policy: RetryPolicy { retry_on, ..self.policy } }
    }

    /// The delay doubles each time.
    pub fn exponential_backoff(self) -> (r: Self)
        ensures
            r.policy == (RetryPolicy { backoff: BackoffStrategy::Exponential, ..self.policy }),
    {
        self.backoff(BackoffStrategy::Exponential)
    }

    /// The delay doubles each time, with a random part.
    pub fn exponential_backoff_with_jitter(self) -> (r: Self)
        ensures
            r.policy == (RetryPolicy { backoff: BackoffStrategy::ExponentialJitter, ..self.policy }),
    {
        self.backoff(BackoffStrategy::ExponentialJitter)
    }

    /// The delay grows by the same amount each time.
    pub fn linear_backoff(self) -> (r: Self)
        ensures
            r.policy == (RetryPolicy { backoff: BackoffStrategy::Linear, ..self.policy }),
    {
        self.backoff(BackoffStrategy::Linear)
    }

    /// The delay is always the same.
    pub fn fixed_backoff(self) -> (r: Self)
        ensures
            r.policy == (RetryPolicy { backoff: BackoffStrategy::Fixed, ..self.policy }),
    {
        self.backoff(BackoffStrategy::Fixed)
    }

    /// The policy.
    pub fn build(self) -> (r: RetryPolicy)
        ensures
            r == self.policy,
    {
        self.policy
    }
}

/// Builds a node.
#[derive(Debug)]
pub struct NodeBuilder {
    /// The node so far.
    pub node: NodeDefinition,
}

/// Whether `b` is a node as it stands before it is configured: a random id, and the type
/// `generic`.
pub open spec fn is_fresh_node(b: NodeBuilder) -> bool {
    &&& exists|id: Seq<char>| id.len() == 36 && b.node.id@ == #[trigger] ("node_"@ + id)
    &&& b.node.name@ == b.node.id@
    &&& b.node.node_type@ == "generic"@
    &&& b.node.is_plain()
}

impl NodeBuilder {
    /// A node with a random id.
    pub fn new() -> (r: Self)
        ensures
            is_fresh_node(r),
    {
        let id = new_uuid();
        let name = cat2("node_", id.as_str());
        NodeBuilder { node: NodeDefinition::new(name.as_str(), "generic") }
    }

    /// Sets the id; the name follows where it is `node_` and `fresh`.
    pub fn id_with(self, id: &str, fresh: &str) -> (r: Self)
        ensures
            r.node.id@ == id@,
            r.node.name@ == (if self.node.name@ == "node_"@ + fresh@ {
                id@
            } else {
                self.node.name@
            }),
            r.node == (NodeDefinition { id: r.node.id, name: r.node.name, ..self.node }),
    {
        let mut node: NodeDefinition = self.node;
        node.id = owned(id);
        let made_up = cat2("node_", fresh);
        if same(node.name.as_str(), made_up.as_str()) {
            node.name = owned(id);
        }
        NodeBuilder { node }
    }

    /// Sets the id. The name follows only where it is `node_` and the identifier that is
    /// drawn for the comparison.
    pub fn id(self, id: &str) -> (r: Self)
        ensures
            r.node.id@ == id@,
            exists|fresh: Seq<char>|
                fresh.len() == 36 && r.node.name@ == (if self.node.name@ == #[trigger] ("node_"@ + fresh) {
                    id@
                } else {
                    self.node.name@
                }),
            r.node == (NodeDefinition { id: r.node.id, name: r.node.name, ..self.node }),
    {
        let fresh = new_uuid();
        self.id_with(id, fresh.as_str())
    }

    /// Sets the name.
    pub fn name(self, name: &str) -> (r: Self)
        ensures
            r.node.name@ == name@,
            r.node == (NodeDefinition { name: r.node.name, ..self.node }),
    {
        NodeBuilder { node: NodeDefinition { name: owned(name), ..self.node } }
    }

    /// Sets the description.
    pub fn description(self, description: &str) -> (r: Self)
        ensures
            r.node.description is Some && r.node.description->0@ == description@,
            r.node == (NodeDefinition { description: r.node.description, ..self.node }),
    {
        NodeBuilder { node: NodeDefinition { description: Some(owned(description)), ..self.node } }
    }

    /// Sets what the node does.
    pub fn node_type(self, node_type: &str) -> (r: Self)
        ensures
            r.node.node_type@ == node_type@,
            r.node == (NodeDefinition { node_type: r.node.node_type, ..self.node }),
    {
        NodeBuilder { node: NodeDefinition { node_type: owned(node_type), ..self.node } }
    }

    /// Sets the settings.
    pub fn config(self, config: Value) -> (r: Self)
        ensures
            r.node == (NodeDefinition { config, ..self.node }),
    {
        NodeBuilder { node: NodeDefinition { config, ..self.node } }
    }

    /// Sets how long the node may run.
    pub fn timeout(self, duration: Duration) -> (r: Self)
        ensures
            r.node == (NodeDefinition { timeout: Some(duration), ..self.node }),
    {
        NodeBuilder { node: NodeDefinition { timeout: Some(duration), ..self.node } }
    }

    /// Sets how the node is tried again, starting from the default policy.
    pub fn retry_policy<F: FnOnce(RetryPolicyBuilder) -> RetryPolicyBuilder>(self, configure: F) -> (r: Self)
        requires
            forall|b: RetryPolicyBuilder| is_default_policy(b.policy) ==> #[trigger] call_requires(configure, (b,)),
        ensures
            exists|b: RetryPolicyBuilder, c: RetryPolicyBuilder|
                is_default_policy(b.policy) && #[trigger] call_ensures(configure, (b,), c) && r.node == (NodeDefinition {
                    retry_policy: Some(c.policy),
                    ..self.node
                }),
    {
        let builder = RetryPolicyBuilder::new(RetryPolicy::default());
        let done = configure(builder);
        NodeBuilder { node: NodeDefinition { retry_policy: Some(done.build()), ..self.node } }
    }

    /// Sets whether the result is cached.
    pub fn cacheable(self, cacheable: bool) -> (r: Self)
        ensures
            r.node == (NodeDefinition { cacheable, ..self.node }),
    {
        NodeBuilder { node: NodeDefinition { cacheable, ..self.node } }
    }

    /// Sets a piece of metadata.
    pub fn metadata(self, key: &str, value: Value) -> (r: Self)
        ensures
            r.node.metadata@ == self.node.metadata@.insert(key@, value),
            r.node == (NodeDefinition { metadata: r.node.metadata, ..self.node }),
    {
        let mut node: NodeDefinition = self.node;
        node.metadata.insert(owned(key), value);
        NodeBuilder { node }
    }

    /// The node.
    pub fn build(self) -> (r: NodeDefinition)
        ensures
            r == self.node,
    {
        self.node
    }
}

/// Builds a workflow.
#[derive(Debug)]
pub struct DagFlowBuilder {
    /// The configuration so far.
    pub config: DagConfig,
    /// The nodes so far.
    pub nodes: StringMap<NodeDefinition>,
    /// The dependencies so far, from dependency to node.
    pub edges: Vec<(String, String)>,
}

/// Whether `a` depends on `b` directly.
pub open spec fn depends(m: Map<Seq<char>, NodeDefinition>, a: Seq<char>, b: Seq<char>) -> bool {
    m.contains_key(a) && holds_text(m[a].dependencies@, b)
}

/// Whether each of `path` depends on the next.
pub open spec fn is_chain(m: Map<Seq<char>, NodeDefinition>, path: Seq<Seq<char>>) -> bool {
    forall|i: int| 0 <= i < path.len() - 1 ==> #[trigger] chained_at(m, path, i)
}

/// Whether `path[i]` depends on the one after it.
pub open spec fn chained_at(m: Map<Seq<char>, NodeDefinition>, path: Seq<Seq<char>>, i: int) -> bool {
    depends(m, path[i], path[i + 1])
}

/// Whether some node depends on itself, directly or over others.
pub open spec fn has_cycle(m: Map<Seq<char>, NodeDefinition>) -> bool {
    exists|path: Seq<Seq<char>>| #[trigger] is_chain(m, path) && path.len() >= 2 && path[0] == path.last()
}

/// Each of `done` comes after all that it depends on.
spec fn ordered(m: Map<Seq<char>, NodeDefinition>, done: Seq<Seq<char>>) -> bool {
    forall|i: int, b: Seq<char>|
        0 <= i < done.len() && #[trigger] depends(m, done[i], b) ==> exists|j: int| 0 <= j < i && (#[trigger] done[j]) == b
}

/// What has been seen is on the way or done.
spec fn accounted(visited: Set<Seq<char>>, on_way: Seq<Seq<char>>, done: Seq<Seq<char>>) -> bool {
    forall|k: Seq<char>| #[trigger] visited.contains(k) <==> on_way.contains(k) || done.contains(k)
}

/// All names: those of the nodes and those that they depend on.
spec fn all_names(pairs: Seq<(String, NodeDefinition)>) -> Set<Seq<char>>
    decreases pairs.len(),
{
    if pairs.len() == 0 {
        Set::empty()
    } else {
        all_names(pairs.drop_last()).insert(pairs.last().0@).union(views(pairs.last().1.dependencies@).to_set())
    }
}

proof fn lemma_all_names(pairs: Seq<(String, NodeDefinition)>)
    ensures
        all_names(pairs).finite(),
        forall|i: int| 0 <= i < pairs.len() ==> all_names(pairs).contains((#[trigger] pairs[i]).0@),
        forall|i: int, j: int|
            #![trigger pairs[i].1.dependencies@[j]]
            0 <= i < pairs.len() && 0 <= j < pairs[i].1.dependencies@.len() ==> all_names(pairs).contains(
                pairs[i].1.dependencies@[j]@,
            ),
    decreases pairs.len(),
{
    if pairs.len() > 0 {
        let rest = pairs.drop_last();
        lemma_all_names(rest);
        let deps = views(pairs.last().1.dependencies@);
        vstd::seq_lib::seq_to_set_is_finite(deps);
        assert forall|i: int| 0 <= i < pairs.len() implies all_names(pairs).contains((#[trigger] pairs[i]).0@) by {
            if i < rest.len() {
                assert(rest[i].0@ == pairs[i].0@);
            }
        }
        assert forall|i: int, j: int|
            #![trigger pairs[i].1.dependencies@[j]]
            0 <= i < pairs.len() && 0 <= j < pairs[i].1.dependencies@.len() implies all_names(pairs).contains(
            pairs[i].1.dependencies@[j]@,
        ) by {
            if i < rest.len() {
                assert(rest[i].1.dependencies@[j]@ == pairs[i].1.dependencies@[j]@);
            } else {
                assert(deps[j] == pairs[i].1.dependencies@[j]@);
                assert(deps.contains(deps[j]));
            }
        }
    }
}

/// Where everything is ordered, a chain goes back in the order.
proof fn lemma_chain_descends(m: Map<Seq<char>, NodeDefinition>, done: Seq<Seq<char>>, path: Seq<Seq<char>>, at: int, n: int)
    -> (pos: int)
    requires
        ordered(m, done),
        is_chain(m, path),
        0 <= n < path.len(),
        0 <= at < done.len(),
        done[at] == path[0],
    ensures
        0 <= pos <= at - n,
        done[pos] == path[n],
    decreases n,
{
    if n == 0 {
        at
    } else {
        let before = lemma_chain_descends(m, done, path, at, n - 1);
        assert(chained_at(m, path, n - 1));
        assert(depends(m, done[before], path[n]));
        choose|j: int| 0 <= j < before && (#[trigger] done[j]) == path[n]
    }
}

/// Where all nodes are ordered, none depends on itself.
proof fn lemma_ordered_acyclic(m: Map<Seq<char>, NodeDefinition>, done: Seq<Seq<char>>)
    requires
        ordered(m, done),
        forall|i: int, j: int| 0 <= i < j < done.len() ==> done[i] != done[j],
        forall|k: Seq<char>| #[trigger] m.contains_key(k) ==> done.contains(k),
    ensures
        !has_cycle(m),
{
    if has_cycle(m) {
        let path = choose|path: Seq<Seq<char>>| #[trigger] is_chain(m, path) && path.len() >= 2 && path[0] == path.last();
        assert(chained_at(m, path, 0));
        assert(done.contains(path[0]));
        let at = choose|at: int| 0 <= at < done.len() && done[at] == path[0];
        let pos = lemma_chain_descends(m, done, path, at, path.len() - 1);
        assert(done[pos] == done[at]);
    }
}

impl DagFlowBuilder {
    /// Whether one of the names behind `node_id` leads back onto the way to it.
    fn has_cycle_util(
        &self,
        node_id: &str,
        visited: &mut StringSet,
        rec_stack: &mut StringSet,
        Ghost(way): Ghost<Seq<Seq<char>>>,
        Ghost(done): Ghost<Seq<Seq<char>>>,
    ) -> (r: (bool, Ghost<Seq<Seq<char>>>))
        requires
            is_chain(self.nodes@, way.push(node_id@)),
            !old(visited)@.contains(node_id@),
            accounted(old(visited)@, way, done),
            forall|k: Seq<char>| #[trigger] old(rec_stack)@.contains(k) <==> way.contains(k),
            ordered(self.nodes@, done),
            forall|i: int, j: int| 0 <= i < j < done.len() ==> done[i] != done[j],
            forall|k: Seq<char>| done.contains(k) ==> !way.contains(k),
            all_names(self.nodes.pairs()).contains(node_id@),
            self.nodes.wf(),
        ensures
            r.0 ==> has_cycle(self.nodes@),
            !r.0 ==> accounted(final(visited)@, way, r.1@) && final(rec_stack)@ == old(rec_stack)@ && ordered(
                self.nodes@,
                r.1@,
            ) && r.1@.contains(node_id@) && (forall|i: int, j: int| 0 <= i < j < r.1@.len() ==> r.1@[i] != r.1@[j])
                && (forall|k: Seq<char>| r.1@.contains(k) ==> !way.contains(k)) && (forall|k: Seq<char>|
                done.contains(k) ==> r.1@.contains(k)),
        decreases all_names(self.nodes.pairs()).difference(old(visited)@).len(),
    {
        let ghost m = self.nodes@;
        let ghost names = all_names(self.nodes.pairs());
        let ghost seen_before = visited@;
        proof {
            lemma_all_names(self.nodes.pairs());
        }
        visited.insert(owned(node_id));
        rec_stack.insert(owned(node_id));
        let ghost inner = way.push(node_id@);
        let ghost mut ready = done;
        proof {
            assert(!way.contains(node_id@) && !done.contains(node_id@)) by {
                assert(!visited@.contains(node_id@) || !seen_before.contains(node_id@));
            }
            assert forall|k: Seq<char>| inner.contains(k) <==> way.contains(k) || k == node_id@ by {
                lemma_push_contains(way, node_id@, k);
            }
            assert(names.difference(seen_before).contains(node_id@));
            assert(names.difference(visited@) =~= names.difference(seen_before).remove(node_id@));
            assert(names.difference(seen_before).finite());
        }
        let ghost limit = names.difference(seen_before).len();
        if let Some(node) = self.nodes.get(node_id) {
            let ghost deps = node.dependencies@;
            let mut i: usize = 0;
            while i < node.dependencies.len()
                invariant
                    i <= node.dependencies@.len(),
                    m == self.nodes@,
                    self.nodes.wf(),
                    names == all_names(self.nodes.pairs()),
                    names.finite(),
                    m.contains_key(node_id@),
                    *node == m[node_id@],
                    deps == node.dependencies@,
                    inner == way.push(node_id@),
                    is_chain(m, inner),
                    seen_before == old(visited)@,
                    limit == names.difference(seen_before).len(),
                    limit > 0,
                    names.difference(visited@).len() < limit,
                    forall|i: int, j: int|
                        #![trigger self.nodes.pairs()[i].1.dependencies@[j]]
                        0 <= i < self.nodes.pairs().len() && 0 <= j < self.nodes.pairs()[i].1.dependencies@.len() ==> names.contains(
                            self.nodes.pairs()[i].1.dependencies@[j]@,
                        ),
                    accounted(visited@, inner, ready),
                    forall|k: Seq<char>| #[trigger] rec_stack@.contains(k) <==> inner.contains(k),
                    ordered(m, ready),
                    forall|i: int, j: int| 0 <= i < j < ready.len() ==> ready[i] != ready[j],
                    forall|k: Seq<char>| ready.contains(k) ==> !inner.contains(k),
                    forall|k: Seq<char>| done.contains(k) ==> ready.contains(k),
                    forall|j: int| 0 <= j < i ==> ready.contains((#[trigger] deps[j])@),
                    visited@.contains(node_id@),
                    forall|k: Seq<char>| seen_before.contains(k) ==> visited@.contains(k),
                decreases node.dependencies.len() - i,
            {
                let dep = node.dependencies[i].as_str();
                proof {
                    assert(deps[i as int]@ == dep@);
                    assert(depends(m, node_id@, dep@));
                    lemma_chain_push(m, inner, dep@);
                    let p = key_index(self.nodes.pairs(), node_id@);
                    lemma_entry(self.nodes.pairs(), p);
                    assert(self.nodes.pairs()[p].1.dependencies@[i as int]@ == dep@);
                }
                if !visited.contains(dep) {
                    let ghost seen = visited@;
                    let (found, Ghost(more)) = self.has_cycle_util(dep, visited, rec_stack, Ghost(inner), Ghost(ready));
                    if found {
                        return (true, Ghost(Seq::empty()));
                    }
                    proof {
                        assert forall|k: Seq<char>| seen.contains(k) implies visited@.contains(k) by {
                            assert(inner.contains(k) || ready.contains(k));
                        }
                        assert(names.difference(visited@).subset_of(names.difference(seen)));
                        vstd::set_lib::lemma_len_subset(names.difference(visited@), names.difference(seen));
                        ready = more;
                    }
                } else if rec_stack.contains(dep) {
                    proof {
                        lemma_closing(m, inner, dep@);
                    }
                    return (true, Ghost(Seq::empty()));
                } else {
                    proof {
                        assert(ready.contains(dep@));
                    }
                }
                i = i + 1;
            }
        }
        rec_stack.remove(node_id);
        let ghost last = ready.push(node_id@);
        proof {
            assert forall|k: Seq<char>| last.contains(k) <==> ready.contains(k) || k == node_id@ by {
                lemma_push_contains(ready, node_id@, k);
            }
            assert forall|k: Seq<char>| #[trigger] visited@.contains(k) <==> way.contains(k) || last.contains(k) by {
                assert(inner.contains(k) <==> way.contains(k) || k == node_id@) by {
                    lemma_push_contains(way, node_id@, k);
                }
            }
            assert forall|i: int, b: Seq<char>| 0 <= i < last.len() && #[trigger] depends(m, last[i], b) implies exists|j: int|
                0 <= j < i && (#[trigger] last[j]) == b by {
                if i < ready.len() {
                    assert(depends(m, ready[i], b));
                    let j = choose|j: int| 0 <= j < i && (#[trigger] ready[j]) == b;
                    assert(last[j] == b);
                } else {
                    let d = choose|d: int| 0 <= d < m[node_id@].dependencies@.len() && (#[trigger] m[node_id@].dependencies@[d])@ == b;
                    assert(ready.contains(b));
                    let j = choose|j: int| 0 <= j < ready.len() && ready[j] == b;
                    assert(last[j] == b);
                }
            }
            assert forall|i: int, j: int| 0 <= i < j < last.len() implies last[i] != last[j] by {
                if j == ready.len() {
                    assert(ready.contains(ready[i]));
                    lemma_push_contains(way, node_id@, node_id@);
                }
            }
            assert forall|k: Seq<char>| last.contains(k) implies !way.contains(k) by {
                lemma_push_contains(way, node_id@, k);
            }
            assert(rec_stack@ =~= old(rec_stack)@) by {
                assert forall|k: Seq<char>| rec_stack@.contains(k) <==> old(rec_stack)@.contains(k) by {
                    lemma_push_contains(way, node_id@, k);
                }
            }
        }
        (false, Ghost(last))
    }

    /// Whether some node depends on itself, directly or over others.
    pub fn has_cycles(&self) -> (r: bool)
        ensures
            r == has_cycle(self.nodes@),
    {
        let mut visited = StringSet::new();
        let mut rec_stack = StringSet::new();
        let keys = self.nodes.keys();
        let ghost mut done: Seq<Seq<char>> = Seq::empty();
        let ghost none: Seq<Seq<char>> = Seq::empty();
        let mut i: usize = 0;
        proof {
            use_type_invariant(&self.nodes);
            lemma_all_names(self.nodes.pairs());
        }
        while i < keys.len()
            invariant
                i <= keys@.len(),
                self.nodes.wf(),
                none == Seq::<Seq<char>>::empty(),
                keys@ == Seq::new(self.nodes.pairs().len(), |i: int| self.nodes.pairs()[i].0),
                forall|i: int|
                    0 <= i < self.nodes.pairs().len() ==> all_names(self.nodes.pairs()).contains((#[trigger] self.nodes.pairs()[i]).0@),
                accounted(visited@, none, done),
                rec_stack@ == Set::<Seq<char>>::empty(),
                ordered(self.nodes@, done),
                forall|i: int, j: int| 0 <= i < j < done.len() ==> done[i] != done[j],
                forall|j: int| 0 <= j < i ==> done.contains((#[trigger] keys@[j])@),
            decreases keys.len() - i,
        {
            let key = keys[i].as_str();
            if !visited.contains(key) {
                proof {
                    assert(key@ == self.nodes.pairs()[i as int].0@);
                    assert(none.push(key@).len() == 1);
                    assert(is_chain(self.nodes@, none.push(key@)));
                }
                let (found, Ghost(more)) = self.has_cycle_util(key, &mut visited, &mut rec_stack, Ghost(none), Ghost(done));
                if found {
                    return true;
                }
                proof {
                    done = more;
                }
            } else {
                proof {
                    assert(done.contains(key@));
                }
            }
            i = i + 1;
        }
        proof {
            assert forall|k: Seq<char>| #[trigger] self.nodes@.contains_key(k) implies done.contains(k) by {
                let j = key_index(self.nodes.pairs(), k);
                assert(keys@[j]@ == k);
            }
            lemma_ordered_acyclic(self.nodes@, done);
        }
        false
    }
}

proof fn lemma_push_contains(s: Seq<Seq<char>>, x: Seq<char>, k: Seq<char>)
    ensures
        s.push(x).contains(k) <==> s.contains(k) || k == x,
{
    if s.contains(k) {
        let i = choose|i: int| 0 <= i < s.len() && s[i] == k;
        assert(s.push(x)[i] == k);
    }
    if k == x {
        assert(s.push(x)[s.len() as int] == k);
    }
    if s.push(x).contains(k) {
        let i = choose|i: int| 0 <= i < s.push(x).len() && s.push(x)[i] == k;
        if i < s.len() {
            assert(s[i] == k);
        }
    }
}

proof fn lemma_chain_push(m: Map<Seq<char>, NodeDefinition>, path: Seq<Seq<char>>, k: Seq<char>)
    requires
        is_chain(m, path),
        path.len() > 0,
        depends(m, path.last(), k),
    ensures
        is_chain(m, path.push(k)),
{
    let longer = path.push(k);
    assert forall|i: int| 0 <= i < longer.len() - 1 implies #[trigger] chained_at(m, longer, i) by {
        if i < path.len() - 1 {
            assert(chained_at(m, path, i));
        }
    }
}

proof fn lemma_closing(m: Map<Seq<char>, NodeDefinition>, path: Seq<Seq<char>>, k: Seq<char>)
    requires
        is_chain(m, path.push(k)),
        path.contains(k),
    ensures
        has_cycle(m),
{
    let longer = path.push(k);
    let i = choose|i: int| 0 <= i < path.len() && path[i] == k;
    let ring = longer.subrange(i, longer.len() as int);
    assert forall|j: int| 0 <= j < ring.len() - 1 implies #[trigger] chained_at(m, ring, j) by {
        assert(chained_at(m, longer, i + j));
    }
    assert(is_chain(m, ring));
    assert(ring[0] == k);
    assert(ring.last() == k);
}

/// The nodes after `dep` was added to what `node` depends on: a node that is not there is
/// not added, and a dependency is not listed twice.
pub open spec fn dependency_added(
    before: Map<Seq<char>, NodeDefinition>,
    after: Map<Seq<char>, NodeDefinition>,
    node: Seq<char>,
    dep: Seq<char>,
) -> bool {
    if before.contains_key(node) {
        let old_node = before[node];
        let new_node = after[node];
        &&& after == before.insert(node, new_node)
        &&& new_node == (NodeDefinition { dependencies: new_node.dependencies, ..old_node })
        &&& if holds_text(old_node.dependencies@, dep) {
            new_node.dependencies == old_node.dependencies
        } else {
            views(new_node.dependencies@) == views(old_node.dependencies@).push(dep)
        }
    } else {
        after == before
    }
}

fn add_dependency(nodes: &mut StringMap<NodeDefinition>, node: &str, dep: &str)
    ensures
        dependency_added(old(nodes)@, final(nodes)@, node@, dep@),
{
    let listed: bool = match nodes.get(node) {
        Some(n) => contains(&n.dependencies, dep),
        None => true,
    };
    if listed {
        proof {
            if old(nodes)@.contains_key(node@) {
                assert(old(nodes)@.insert(node@, old(nodes)@[node@]) =~= old(nodes)@);
            }
        }
        return;
    }
    if let Some(n) = nodes.remove(node) {
        let mut n: NodeDefinition = n;
        let ghost before = views(n.dependencies@);
        n.dependencies.push(owned(dep));
        proof {
            assert(views(n.dependencies@) =~= before.push(dep@));
        }
        nodes.insert(owned(node), n);
        proof {
            assert(nodes@ =~= old(nodes)@.insert(node@, n));
        }
    }
}

/// The nodes of an order of builders, added one after the other.
pub open spec fn with_nodes(m: Map<Seq<char>, NodeDefinition>, builders: Seq<NodeBuilder>) -> Map<Seq<char>, NodeDefinition>
    decreases builders.len(),
{
    if builders.len() == 0 {
        m
    } else {
        with_nodes(m, builders.drop_last()).insert(builders.last().node.id@, builders.last().node)
    }
}

/// Dependency `j` of the node at `i` is no node, and all before it are.
pub open spec fn first_missing_node(pairs: Seq<(String, NodeDefinition)>, m: Map<Seq<char>, NodeDefinition>, i: int, j: int) -> bool {
    &&& 0 <= i < pairs.len()
    &&& 0 <= j < pairs[i].1.dependencies@.len()
    &&& !m.contains_key(pairs[i].1.dependencies@[j]@)
    &&& forall|b: int| 0 <= b < j ==> m.contains_key(#[trigger] pairs[i].1.dependencies@[b]@)
    &&& forall|a: int| 0 <= a < i ==> dependencies_present((#[trigger] pairs[a]).1, m)
}

/// Whether everything that `node` depends on is a node.
pub open spec fn dependencies_present(node: NodeDefinition, m: Map<Seq<char>, NodeDefinition>) -> bool {
    forall|b: int| 0 <= b < node.dependencies@.len() ==> m.contains_key(#[trigger] node.dependencies@[b]@)
}

/// Whether everything that a node depends on is a node.
pub open spec fn all_present(pairs: Seq<(String, NodeDefinition)>, m: Map<Seq<char>, NodeDefinition>) -> bool {
    forall|a: int| 0 <= a < pairs.len() ==> dependencies_present((#[trigger] pairs[a]).1, m)
}

/// Whether a node has an id and a type.
pub open spec fn is_named(node: NodeDefinition) -> bool {
    node.id@.len() > 0 && node.node_type@.len() > 0
}

/// The node at `i` is the first without an id or a type.
pub open spec fn first_unnamed(pairs: Seq<(String, NodeDefinition)>, i: int) -> bool {
    &&& 0 <= i < pairs.len()
    &&& !is_named(pairs[i].1)
    &&& forall|a: int| 0 <= a < i ==> is_named((#[trigger] pairs[a]).1)
}

/// Whether all nodes have an id and a type.
pub open spec fn all_named(pairs: Seq<(String, NodeDefinition)>) -> bool {
    forall|a: int| 0 <= a < pairs.len() ==> is_named((#[trigger] pairs[a]).1)
}

/// Whether `e` says what is wrong with the nodes: a cycle first, then a dependency that is
/// no node, then a node without an id or a type.
pub open spec fn is_structure_error(pairs: Seq<(String, NodeDefinition)>, m: Map<Seq<char>, NodeDefinition>, e: DaggerError) -> bool {
    if has_cycle(m) {
        e.is_validation("DAG contains cycles"@)
    } else if !all_present(pairs, m) {
        exists|i: int, j: int| #[trigger]
            first_missing_node(pairs, m, i, j) && e.is_validation(
                "Node '"@ + pairs[i].1.id@ + "' depends on non-existent node '"@ + pairs[i].1.dependencies@[j]@ + "'"@,
            )
    } else {
        exists|i: int| #[trigger]
            first_unnamed(pairs, i) && e.is_validation(
                if pairs[i].1.id@.len() == 0 {
                    "Node ID cannot be empty"@
                } else {
                    "Node type cannot be empty"@
                },
            )
    }
}

impl DagFlowBuilder {
    /// The nodes form a workflow: no cycle, every dependency a node, every node named.
    pub open spec fn is_valid(&self) -> bool {
        !has_cycle(self.nodes@) && all_present(self.nodes.pairs(), self.nodes@) && all_named(self.nodes.pairs())
    }

    /// A workflow called `name` without nodes.
    pub fn new(name: &str) -> (r: Self)
        ensures
            r.config.name@ == name@,
            is_default_config(r.config),
            r.nodes@ == Map::<Seq<char>, NodeDefinition>::empty(),
            r.edges@.len() == 0,
    {
        DagFlowBuilder { config: config_named(owned(name)), nodes: StringMap::new(), edges: Vec::new() }
    }

    /// Sets the description.
    pub fn description(self, description: &str) -> (r: Self)
        ensures
            r.config.description is Some && r.config.description->0@ == description@,
            r == (DagFlowBuilder {
                config: DagConfig { description: r.config.description, ..self.config },
                ..self
            }),
    {
        let mut r: DagFlowBuilder = self;
        r.config.description = Some(owned(description));
        r
    }

    /// Sets how long the workflow may run.
    pub fn max_execution_time(self, duration: Duration) -> (r: Self)
        ensures
            r == (DagFlowBuilder { config: DagConfig { max_execution_time: duration, ..self.config }, ..self }),
    {
        let mut r: DagFlowBuilder = self;
        r.config.max_execution_time = duration;
        r
    }

    /// Sets how many nodes run at the same time.
    pub fn max_parallel_nodes(self, count: usize) -> (r: Self)
        ensures
            r == (DagFlowBuilder { config: DagConfig { max_parallel_nodes: count, ..self.config }, ..self }),
    {
        let mut r: DagFlowBuilder = self;
        r.config.max_parallel_nodes = count;
        r
    }

    /// Sets how failed nodes are tried again, starting from the policy so far.
    pub fn retry_policy<F: FnOnce(RetryPolicyBuilder) -> RetryPolicyBuilder>(self, configure: F) -> (r: Self)
        requires
            call_requires(configure, (RetryPolicyBuilder { policy: self.config.retry_policy },)),
        ensures
            exists|b: RetryPolicyBuilder| #[trigger]
                call_ensures(configure, (RetryPolicyBuilder { policy: self.config.retry_policy },), b) && r == (
                DagFlowBuilder { config: DagConfig { retry_policy: b.policy, ..self.config }, ..self }),
    {
        let DagFlowBuilder { config, nodes, edges } = self;
        let DagConfig {
            name,
            description,
            max_execution_time,
            max_parallel_nodes,
            retry_policy,
            error_handling,
            enable_caching,
            enable_metrics,
            metadata,
        } = config;
        let builder = RetryPolicyBuilder::new(retry_policy);
        let done = configure(builder);
        let config = DagConfig {
            name,
            description,
            max_execution_time,
            max_parallel_nodes,
            retry_policy: done.build(),
            error_handling,
            enable_caching,
            enable_metrics,
            metadata,
        };
        DagFlowBuilder { config, nodes, edges }
    }

    /// Sets what to do when a node fails.
    pub fn error_handling(self, strategy: ErrorHandling) -> (r: Self)
        ensures
            r == (DagFlowBuilder { config: DagConfig { error_handling: strategy, ..self.config }, ..self }),
    {
        let mut r: DagFlowBuilder = self;
        r.config.error_handling = strategy;
        r
    }

    /// Sets whether results are cached.
    pub fn enable_caching(self, enabled: bool) -> (r: Self)
        ensures
            r == (DagFlowBuilder { config: DagConfig { enable_caching: enabled, ..self.config }, ..self }),
    {
        let mut r: DagFlowBuilder = self;
        r.config.enable_caching = enabled;
        r
    }

    /// Sets whether metrics are kept.
    pub fn enable_metrics(self, enabled: bool) -> (r: Self)
        ensures
            r == (DagFlowBuilder { config: DagConfig { enable_metrics: enabled, ..self.config }, ..self }),
    {
        let mut r: DagFlowBuilder = self;
        r.config.enable_metrics = enabled;
        r
    }

    /// Sets a piece of metadata.
    pub fn metadata(self, key: &str, value: Value) -> (r: Self)
        ensures
            r.config.metadata@ == self.config.metadata@.insert(key@, value),
            r == (DagFlowBuilder { config: DagConfig { metadata: r.config.metadata, ..self.config }, ..self }),
    {
        let mut r: DagFlowBuilder = self;
        r.config.metadata.insert(owned(key), value);
        r
    }

    /// Adds a node; one that had the id is replaced.
    pub fn node<F: FnOnce(NodeBuilder) -> NodeBuilder>(self, configure: F) -> (r: Self)
        requires
            forall|b: NodeBuilder| is_fresh_node(b) ==> #[trigger] call_requires(configure, (b,)),
        ensures
            exists|b: NodeBuilder, c: NodeBuilder|
                is_fresh_node(b) && #[trigger] call_ensures(configure, (b,), c) && r.nodes@ == self.nodes@.insert(
                    c.node.id@,
                    c.node,
                ),
            r == (DagFlowBuilder { nodes: r.nodes, ..self }),
    {
        let builder = NodeBuilder::new();
        let node = configure(builder).build();
        let mut r: DagFlowBuilder = self;
        r.nodes.insert(node.id.clone(), node);
        r
    }

    /// Adds nodes in order; one that had the id is replaced.
    pub fn nodes(self, nodes: Vec<NodeBuilder>) -> (r: Self)
        ensures
            r.nodes@ == with_nodes(self.nodes@, nodes@),
            r == (DagFlowBuilder { nodes: r.nodes, ..self }),
    {
        let ghost all = nodes@;
        let ghost before = self.nodes@;
        let mut r: DagFlowBuilder = self;
        let mut rest: Vec<NodeBuilder> = nodes;
        let ghost mut i: int = 0;
        proof {
            assert(all.take(0) =~= Seq::<NodeBuilder>::empty());
            assert(all.skip(0) =~= all);
        }
        while rest.len() > 0
            invariant
                0 <= i <= all.len(),
                rest@ == all.skip(i),
                r.nodes@ == with_nodes(before, all.take(i)),
                r == (DagFlowBuilder { nodes: r.nodes, ..self }),
            decreases rest.len(),
        {
            proof {
                assert(all.take(i + 1).drop_last() =~= all.take(i));
                assert(all.take(i + 1).last() == rest@[0]);
                assert(all.skip(i + 1) =~= rest@.remove(0));
            }
            let node = rest.remove(0).build();
            r.nodes.insert(node.id.clone(), node);
            proof {
                i = i + 1;
            }
        }
        proof {
            assert(all.take(i) =~= all);
        }
        r
    }

    /// Says that `node` comes after `dependency`.
    pub fn depends_on(self, node: &str, dependency: &str) -> (r: Self)
        ensures
            dependency_added(self.nodes@, r.nodes@, node@, dependency@),
            r.edges@.len() == self.edges@.len() + 1,
            r.edges@.last().0@ == dependency@,
            r.edges@.last().1@ == node@,
            r.edges@.drop_last() == self.edges@,
            r.config == self.config,
    {
        let mut r: DagFlowBuilder = self;
        add_dependency(&mut r.nodes, node, dependency);
        r.edges.push((owned(dependency), owned(node)));
        proof {
            assert(r.edges@.drop_last() =~= self.edges@);
        }
        r
    }

    /// Says that `node` comes after all of `dependencies`.
    pub fn depends_on_all(self, node: &str, dependencies: &Vec<String>) -> (r: Self)
        ensures
            r.config == self.config,
            r.edges@.len() == self.edges@.len() + dependencies@.len(),
            forall|i: int| 0 <= i < self.edges@.len() ==> r.edges@[i] == self.edges@[i],
            forall|j: int|
                0 <= j < dependencies@.len() ==> (#[trigger] r.edges@[self.edges@.len() + j]).0@ == dependencies@[j]@
                    && r.edges@[self.edges@.len() + j].1@ == node@,
            exists|steps: Seq<Map<Seq<char>, NodeDefinition>>| #[trigger]
                dependencies_added(self.nodes@, r.nodes@, node@, dependencies@, steps),
    {
        let ghost count = self.edges@.len() as int;
        let mut r: DagFlowBuilder = self;
        let ghost mut steps: Seq<Map<Seq<char>, NodeDefinition>> = seq![self.nodes@];
        let mut i: usize = 0;
        while i < dependencies.len()
            invariant
                i <= dependencies@.len(),
                count == self.edges@.len(),
                r.config == self.config,
                r.edges@.len() == count + i,
                forall|k: int| 0 <= k < count ==> r.edges@[k] == self.edges@[k],
                forall|j: int|
                    0 <= j < i ==> (#[trigger] r.edges@[count + j]).0@ == dependencies@[j]@ && r.edges@[count + j].1@ == node@,
                steps.len() == i + 1,
                steps[0] == self.nodes@,
                steps.last() == r.nodes@,
                forall|j: int|
                    0 <= j < i ==> dependency_added(steps[j], #[trigger] steps[j + 1], node@, dependencies@[j]@),
            decreases dependencies.len() - i,
        {
            let ghost before = steps;
            add_dependency(&mut r.nodes, node, dependencies[i].as_str());
            r.edges.push((dependencies[i].clone(), owned(node)));
            proof {
                steps = steps.push(r.nodes@);
                assert forall|j: int| 0 <= j < i + 1 implies dependency_added(
                    steps[j],
                    #[trigger] steps[j + 1],
                    node@,
                    dependencies@[j]@,
                ) by {
                    if j < i {
                        assert(dependency_added(before[j], before[j + 1], node@, dependencies@[j]@));
                    }
                }
            }
            i = i + 1;
        }
        proof {
            assert(dependencies_added(self.nodes@, r.nodes@, node@, dependencies@, steps));
        }
        r
    }

    fn check_dependencies(&self) -> (r: Result<(), DaggerError>)
        ensures
            r is Ok <==> all_present(self.nodes.pairs(), self.nodes@),
            r matches Err(e) ==> exists|i: int, j: int| #[trigger]
                first_missing_node(self.nodes.pairs(), self.nodes@, i, j) && e.is_validation(
                    "Node '"@ + self.nodes.pairs()[i].1.id@ + "' depends on non-existent node '"@
                        + self.nodes.pairs()[i].1.dependencies@[j]@ + "'"@,
                ),
    {
        let n: usize = self.nodes.len();
        let ghost pairs = self.nodes.pairs();
        let mut i: usize = 0;
        while i < n
            invariant
                i <= n,
                n == pairs.len(),
                pairs == self.nodes.pairs(),
                forall|a: int| 0 <= a < i ==> dependencies_present((#[trigger] pairs[a]).1, self.nodes@),
            decreases n - i,
        {
            let node = self.nodes.value_at(i);
            let mut j: usize = 0;
            while j < node.dependencies.len()
                invariant
                    i < n,
                    n == pairs.len(),
                    pairs == self.nodes.pairs(),
                    *node == pairs[i as int].1,
                    j <= node.dependencies@.len(),
                    forall|a: int| 0 <= a < i ==> dependencies_present((#[trigger] pairs[a]).1, self.nodes@),
                    forall|b: int| 0 <= b < j ==> self.nodes@.contains_key(#[trigger] node.dependencies@[b]@),
                decreases node.dependencies.len() - j,
            {
                let dep = node.dependencies[j].as_str();
                if !self.nodes.contains_key(dep) {
                    proof {
                        assert(first_missing_node(pairs, self.nodes@, i as int, j as int));
                        assert(!dependencies_present(pairs[i as int].1, self.nodes@)) by {
                            assert(!self.nodes@.contains_key(pairs[i as int].1.dependencies@[j as int]@));
                        }
                    }
                    return Err(
                        DaggerError::validation(
                            cat5("Node '", node.id.as_str(), "' depends on non-existent node '", dep, "'").as_str(),
                        ),
                    );
                }
                j = j + 1;
            }
            i = i + 1;
        }
        Ok(())
    }

    /// Checks that the nodes form a workflow.
    pub fn validate(&self) -> (r: Result<(), DaggerError>)
        ensures
            r is Ok <==> self.is_valid(),
            r matches Err(e) ==> is_structure_error(self.nodes.pairs(), self.nodes@, e),
    {
        if self.has_cycles() {
            return Err(DaggerError::validation("DAG contains cycles"));
        }
        match self.check_dependencies() {
            Ok(()) => {},
            Err(e) => {
                return Err(e);
            },
        }
        let n: usize = self.nodes.len();
        let ghost pairs = self.nodes.pairs();
        let mut i: usize = 0;
        while i < n
            invariant
                i <= n,
                n == pairs.len(),
                pairs == self.nodes.pairs(),
                !has_cycle(self.nodes@),
                all_present(pairs, self.nodes@),
                forall|a: int| 0 <= a < i ==> is_named((#[trigger] pairs[a]).1),
            decreases n - i,
        {
            let node = self.nodes.value_at(i);
            if node.id.as_str().is_empty() {
                proof {
                    assert(first_unnamed(pairs, i as int));
                }
                return Err(DaggerError::validation("Node ID cannot be empty"));
            }
            if node.node_type.as_str().is_empty() {
                proof {
                    assert(first_unnamed(pairs, i as int));
                }
                return Err(DaggerError::validation("Node type cannot be empty"));
            }
            i = i + 1;
        }
        Ok(())
    }

    /// The configuration and the nodes, where they form a workflow.
    pub fn build(self) -> (r: Result<(DagConfig, StringMap<NodeDefinition>), DaggerError>)
        ensures
            r is Ok <==> self.is_valid(),
            r matches Ok((config, nodes)) ==> config == self.config && nodes == self.nodes,
            r matches Err(e) ==> is_structure_error(self.nodes.pairs(), self.nodes@, e),
    {
        match self.validate() {
            Ok(()) => Ok((self.config, self.nodes)),
            Err(e) => Err(e),
        }
    }

    /// The workflow with all nodes waiting, where it is one.
    pub fn build_execution_context(self) -> (r: Result<DagExecutionContext, DaggerError>)
        ensures
            r is Ok <==> self.is_valid(),
            r matches Ok(c) ==> {
                &&& c.config == self.config
                &&& c.state.status == DagStatus::Pending
                &&& c.state.start_time is None && c.state.end_time is None && c.state.error is None
                &&& c.state.metrics == initial_metrics(self.nodes.pairs().len() as usize)
                &&& c.state.node_states@.dom() == self.nodes@.dom()
                &&& forall|k: Seq<char>| #[trigger]
                    c.state.node_states@.contains_key(k) ==> c.state.node_states@[k] == pending_state()
            },
            r matches Err(e) ==> is_structure_error(self.nodes.pairs(), self.nodes@, e),
    {
        let (config, nodes) = match self.build() {
            Ok(x) => x,
            Err(e) => {
                return Err(e);
            },
        };
        let keys = nodes.keys();
        let total: usize = nodes.len();
        let mut node_states: StringMap<NodeExecutionState> = StringMap::new();
        let mut i: usize = 0;
        while i < keys.len()
            invariant
                i <= keys@.len(),
                forall|k: Seq<char>| #[trigger]
                    node_states@.contains_key(k) <==> exists|j: int| 0 <= j < i && (#[trigger] keys@[j])@ == k,
                forall|k: Seq<char>| #[trigger] node_states@.contains_key(k) ==> node_states@[k] == pending_state(),
            decreases keys.len() - i,
        {
            let ghost before = node_states@;
            node_states.insert(
                keys[i].clone(),
                NodeExecutionState {
                    status: NodeStatus::Pending,
                    start_time: None,
                    end_time: None,
                    attempts: 0,
                    error: None,
                    result: None,
                },
            );
            proof {
                assert forall|k: Seq<char>| #[trigger] node_states@.contains_key(k) <==> exists|j: int|
                    0 <= j < i + 1 && (#[trigger] keys@[j])@ == k by {
                    if node_states@.contains_key(k) && k != keys@[i as int]@ {
                        assert(before.contains_key(k));
                    }
                    if exists|j: int| 0 <= j < i + 1 && (#[trigger] keys@[j])@ == k {
                        let j = choose|j: int| 0 <= j < i + 1 && (#[trigger] keys@[j])@ == k;
                        if j < i {
                            assert(before.contains_key(k));
                        }
                    }
                    if k == keys@[i as int]@ {
                        assert(keys@[i as int]@ == k);
                    }
                }
                assert forall|k: Seq<char>| #[trigger] node_states@.contains_key(k) implies node_states@[k] == pending_state() by {
                    if k != keys@[i as int]@ {
                        assert(before.contains_key(k));
                    }
                }
            }
            i = i + 1;
        }
        proof {
            assert forall|k: Seq<char>| node_states@.dom().contains(k) <==> self.nodes@.dom().contains(k) by {
                assert(node_states@.contains_key(k) <==> holds_text(keys@, k));
            }
            assert(node_states@.dom() =~= self.nodes@.dom());
        }
        let metrics = DagExecutionMetrics {
            total_nodes: total,
            completed_nodes: 0,
            failed_nodes: 0,
            skipped_nodes: 0,
            total_execution_time: None,
            cache_hits: 0,
            cache_misses: 0,
            retries: 0,
        };
        Ok(
            DagExecutionContext {
                config,
                state: DagExecutionState {
                    status: DagStatus::Pending,
                    node_states,
                    start_time: None,
                    end_time: None,
                    error: None,
                    metrics,
                },
            },
        )
    }
}

/// `steps` are the nodes after each of `deps` was added to what `node` depends on.
pub open spec fn dependencies_added(
    before: Map<Seq<char>, NodeDefinition>,
    after: Map<Seq<char>, NodeDefinition>,
    node: Seq<char>,
    deps: Seq<String>,
    steps: Seq<Map<Seq<char>, NodeDefinition>>,
) -> bool {
    &&& steps.len() == deps.len() + 1
    &&& steps[0] == before
    &&& steps.last() == after
    &&& forall|j: int| 0 <= j < deps.len() ==> dependency_added(steps[j], #[trigger] steps[j + 1], node, deps[j]@)
}

/// In a workflow that was built, no node depends on itself and every dependency is a node.
pub proof fn built_workflow_is_sound(b: DagFlowBuilder, a: Seq<char>, dep: Seq<char>)
    requires
        b.is_valid(),
        b.nodes.wf(),
        depends(b.nodes@, a, dep),
    ensures
        a != dep,
        b.nodes@.contains_key(dep),
{
    let path = seq![a, dep];
    assert(is_chain(b.nodes@, path)) by {
        assert(chained_at(b.nodes@, path, 0));
    }
    let p = key_index(b.nodes.pairs(), a);
    lemma_entry(b.nodes.pairs(), p);
    assert(dependencies_present(b.nodes.pairs()[p].1, b.nodes@));
    let d = choose|d: int| 0 <= d < b.nodes@[a].dependencies@.len() && (#[trigger] b.nodes@[a].dependencies@[d])@ == dep;
    assert(b.nodes@.contains_key(b.nodes.pairs()[p].1.dependencies@[d]@));
}

/// A dependency that was added holds.
pub proof fn added_dependency_holds(
    before: Map<Seq<char>, NodeDefinition>,
    after: Map<Seq<char>, NodeDefinition>,
    node: Seq<char>,
    dep: Seq<char>,
)
    requires
        dependency_added(before, after, node, dep),
        before.contains_key(node),
    ensures
        depends(after, node, dep),
{
    let n = after[node];
    if !holds_text(before[node].dependencies@, dep) {
        let v = views(n.dependencies@);
        assert(v[v.len() - 1] == dep);
        assert(n.dependencies@[v.len() - 1]@ == dep);
    }
}

/// A workflow is accepted only where each dependency is a node and each node has an id and a
/// type; nodes that depend on each other in a ring are refused as a cycle.
pub proof fn sound_workflows_are_accepted(b: &DagFlowBuilder, r: Result<(), DaggerError>, ring: Seq<Seq<char>>, i: int, j: int)
    requires
        call_ensures(DagFlowBuilder::validate, (b,), r),
    ensures
        ring.len() >= 2 && ring[0] == ring.last() && (forall|k: int|
            0 <= k < ring.len() - 1 ==> b.nodes@.contains_key(#[trigger] ring[k]) && holds_text(
                b.nodes@[ring[k]].dependencies@,
                ring[k + 1],
            )) ==> (r matches Err(DaggerError::Validation { message, .. }) && message@ == "DAG contains cycles"@),
        r is Ok && 0 <= i < b.nodes.pairs().len() ==> b.nodes.pairs()[i].1.id@.len() > 0 && b.nodes.pairs()[i].1.node_type@.len()
            > 0,
        r is Ok && 0 <= i < b.nodes.pairs().len() && 0 <= j < b.nodes.pairs()[i].1.dependencies@.len() ==> b.nodes@.contains_key(
            b.nodes.pairs()[i].1.dependencies@[j]@,
        ),
        b.nodes.pairs().len() == 0 && b.nodes@ == Map::<Seq<char>, NodeDefinition>::empty() ==> r is Ok,
{
    if ring.len() >= 2 && ring[0] == ring.last() && (forall|k: int|
        0 <= k < ring.len() - 1 ==> b.nodes@.contains_key(#[trigger] ring[k]) && holds_text(
            b.nodes@[ring[k]].dependencies@,
            ring[k + 1],
        )) {
        assert forall|k: int| 0 <= k < ring.len() - 1 implies #[trigger] chained_at(b.nodes@, ring, k) by {
            assert(b.nodes@.contains_key(ring[k]));
        }
        assert(is_chain(b.nodes@, ring));
    }
    if r is Ok && 0 <= i < b.nodes.pairs().len() {
        assert(is_named(b.nodes.pairs()[i].1));
        assert(dependencies_present(b.nodes.pairs()[i].1, b.nodes@));
    }
    if b.nodes@ == Map::<Seq<char>, NodeDefinition>::empty() {
        assert forall|path: Seq<Seq<char>>| !(#[trigger] is_chain(b.nodes@, path) && path.len() >= 2) by {
            if path.len() >= 2 && is_chain(b.nodes@, path) {
                assert(chained_at(b.nodes@, path, 0));
            }
        }
    }
}

/// What is built is what was put together, and a workflow that is not accepted is not built.
pub proof fn built_is_what_was_put_together(
    b: DagFlowBuilder,
    checked: Result<(), DaggerError>,
    r: Result<(DagConfig, StringMap<NodeDefinition>), DaggerError>,
    c: Result<DagExecutionContext, DaggerError>,
)
    requires
        call_ensures(DagFlowBuilder::validate, (&b,), checked),
        call_ensures(DagFlowBuilder::build, (b,), r),
        call_ensures(DagFlowBuilder::build_execution_context, (b,), c),
    ensures
        r is Ok <==> checked is Ok,
        c is Ok <==> checked is Ok,
        r matches Ok(x) ==> x.0 == b.config && x.1 == b.nodes,
        c matches Ok(x) ==> x.config == b.config && x.state.status is Pending && (b.nodes.pairs().len() <= usize::MAX
            ==> x.state.metrics.total_nodes == b.nodes.pairs().len()) && x.state.metrics.completed_nodes == 0 && x.state.metrics.failed_nodes == 0 && (forall|
            k: Seq<char>,
        | #[trigger]
            x.state.node_states@.contains_key(k) ==> x.state.node_states@[k].status is Pending
                && x.state.node_states@[k].attempts == 0) && x.state.node_states@.dom() == b.nodes@.dom(),
{
}

/// A dependency that is said of a node is among those of the node, behind those that were there;
/// one that was there is not said twice, and other nodes stay.
pub proof fn dependency_is_said_once(b: DagFlowBuilder, node: &str, dep: &str, r: DagFlowBuilder)
    requires
        call_ensures(DagFlowBuilder::depends_on, (b, node, dep), r),
    ensures
        b.nodes@.contains_key(node@) && !holds_text(b.nodes@[node@].dependencies@, dep@) ==> r.nodes@.contains_key(node@) && views(
            r.nodes@[node@].dependencies@,
        ) == views(b.nodes@[node@].dependencies@).push(dep@),
        b.nodes@.contains_key(node@) && holds_text(b.nodes@[node@].dependencies@, dep@) ==> r.nodes@[node@].dependencies
            == b.nodes@[node@].dependencies,
        b.nodes@.contains_key(node@) ==> r.nodes@[node@].id == b.nodes@[node@].id && r.nodes@[node@].node_type
            == b.nodes@[node@].node_type && r.nodes@[node@].config == b.nodes@[node@].config,
        !b.nodes@.contains_key(node@) ==> r.nodes@ == b.nodes@,
        forall|k: Seq<char>|
            k != node@ ==> (#[trigger] r.nodes@.contains_key(k) <==> b.nodes@.contains_key(k)) && r.nodes@[k] == b.nodes@[k],
        r.edges@.last().0@ == dep@ && r.edges@.last().1@ == node@ && r.config == b.config,
{
}

proof fn lemma_with_nodes(m: Map<Seq<char>, NodeDefinition>, builders: Seq<NodeBuilder>, id: Seq<char>)
    ensures
        (forall|j: int| 0 <= j < builders.len() ==> (#[trigger] builders[j]).node.id@ != id) ==> (with_nodes(m, builders).contains_key(
            id,
        ) <==> m.contains_key(id)) && with_nodes(m, builders)[id] == m[id],
        forall|i: int|
            0 <= i < builders.len() && (#[trigger] builders[i]).node.id@ == id && (forall|j: int|
                i < j < builders.len() ==> (#[trigger] builders[j]).node.id@ != id) ==> with_nodes(m, builders).contains_key(id)
                && with_nodes(m, builders)[id] == builders[i].node,
    decreases builders.len(),
{
    if builders.len() > 0 {
        let front = builders.drop_last();
        lemma_with_nodes(m, front, id);
        assert forall|j: int| 0 <= j < front.len() implies #[trigger] front[j] == builders[j] by {}
        if builders.last().node.id@ != id {
            assert forall|i: int|
                0 <= i < builders.len() && (#[trigger] builders[i]).node.id@ == id && (forall|j: int|
                    i < j < builders.len() ==> (#[trigger] builders[j]).node.id@ != id) implies with_nodes(m, builders).contains_key(
                id,
            ) && with_nodes(m, builders)[id] == builders[i].node by {
                assert(front[i] == builders[i]);
                assert forall|j: int| i < j < front.len() implies (#[trigger] front[j]).node.id@ != id by {
                    assert(builders[j].node.id@ != id);
                }
            }
        } else {
            assert forall|i: int|
                0 <= i < builders.len() && (#[trigger] builders[i]).node.id@ == id && (forall|j: int|
                    i < j < builders.len() ==> (#[trigger] builders[j]).node.id@ != id) implies with_nodes(m, builders).contains_key(
                id,
            ) && with_nodes(m, builders)[id] == builders[i].node by {
                if i < builders.len() - 1 {
                    assert(builders[builders.len() - 1].node.id@ != id);
                }
            }
            assert(builders[builders.len() - 1].node.id@ == id);
        }
    }
}

/// Of nodes that are added under one id the last counts, and nodes under other ids stay.
pub proof fn last_node_of_an_id_counts(b: DagFlowBuilder, builders: Vec<NodeBuilder>, r: DagFlowBuilder, i: int, id: Seq<char>)
    requires
        call_ensures(DagFlowBuilder::nodes, (b, builders), r),
    ensures
        0 <= i < builders@.len() && builders@[i].node.id@ == id && (forall|j: int|
            i < j < builders@.len() ==> (#[trigger] builders@[j]).node.id@ != id) ==> r.nodes@.contains_key(id) && r.nodes@[id]
            == builders@[i].node,
        (forall|j: int| 0 <= j < builders@.len() ==> (#[trigger] builders@[j]).node.id@ != id) ==> (r.nodes@.contains_key(id)
            <==> b.nodes@.contains_key(id)) && r.nodes@[id] == b.nodes@[id],
        r.config == b.config && r.edges == b.edges,
{
    lemma_with_nodes(b.nodes@, builders@, id);
}

/// What holds for a new workflow unless told otherwise.
pub proof fn new_workflow_has_the_usual_settings(name: &str, r: DagFlowBuilder, p: RetryPolicy)
    requires
        call_ensures(DagFlowBuilder::new, (name,), r),
        call_ensures(RetryPolicy::default, (), p),
    ensures
        r.config.name@ == name@ && r.config.description is None && nanos(r.config.max_execution_time) == 3_600_000_000_000
            && r.config.max_parallel_nodes == 10 && r.config.error_handling is StopOnError && r.config.enable_caching
            && r.config.enable_metrics,
        r.nodes@ == Map::<Seq<char>, NodeDefinition>::empty() && r.edges@.len() == 0,
        p.max_retries == 3 && nanos(p.base_delay) == 1_000_000_000 && nanos(p.max_delay) == 60_000_000_000
            && p.backoff is Exponential,
        p.retry_on@.len() == 3 && p.retry_on@[0]@ == "timeout"@ && p.retry_on@[1]@ == "resource"@ && p.retry_on@[2]@
            == "concurrency"@,
        r.config.retry_policy.max_retries == 3 && nanos(r.config.retry_policy.base_delay) == 1_000_000_000 && nanos(
            r.config.retry_policy.max_delay,
        ) == 60_000_000_000,
{
    assert(views(p.retry_on@).len() == p.retry_on@.len());
    assert(views(p.retry_on@)[0] == p.retry_on@[0]@);
    assert(views(p.retry_on@)[1] == p.retry_on@[1]@);
    assert(views(p.retry_on@)[2] == p.retry_on@[2]@);
}

/// Whether nodes that are put together depend on each other in a ring.
pub proof fn rings_are_found(b: &DagFlowBuilder, r: bool, ring: Seq<Seq<char>>)
    requires
        call_ensures(DagFlowBuilder::has_cycles, (b,), r),
    ensures
        ring.len() >= 2 && ring[0] == ring.last() && (forall|k: int|
            0 <= k < ring.len() - 1 ==> b.nodes@.contains_key(#[trigger] ring[k]) && holds_text(
                b.nodes@[ring[k]].dependencies@,
                ring[k + 1],
            )) ==> r,
        r ==> exists|found: Seq<Seq<char>>|
            found.len() >= 2 && found[0] == found.last() && forall|k: int|
                0 <= k < found.len() - 1 ==> b.nodes@.contains_key(#[trigger] found[k]) && holds_text(
                    b.nodes@[found[k]].dependencies@,
                    found[k + 1],
                ),
{
    if ring.len() >= 2 && ring[0] == ring.last() && (forall|k: int|
        0 <= k < ring.len() - 1 ==> b.nodes@.contains_key(#[trigger] ring[k]) && holds_text(
            b.nodes@[ring[k]].dependencies@,
            ring[k + 1],
        )) {
        assert forall|k: int| 0 <= k < ring.len() - 1 implies #[trigger] chained_at(b.nodes@, ring, k) by {
            assert(b.nodes@.contains_key(ring[k]));
        }
        assert(is_chain(b.nodes@, ring));
    }
    if r {
        let path = choose|path: Seq<Seq<char>>| #[trigger] is_chain(b.nodes@, path) && path.len() >= 2 && path[0] == path.last();
        assert forall|k: int| 0 <= k < path.len() - 1 implies b.nodes@.contains_key(#[trigger] path[k]) && holds_text(
            b.nodes@[path[k]].dependencies@,
            path[k + 1],
        ) by {
            assert(chained_at(b.nodes@, path, k));
        }
    }
}

/// A node that is made to depend on several others depends on each of them, and still on what it
/// depended on; the other nodes stay.
pub proof fn all_dependencies_are_said(b: DagFlowBuilder, node: &str, deps: &Vec<String>, r: DagFlowBuilder, j: int, other: Seq<char>)
    requires
        call_ensures(DagFlowBuilder::depends_on_all, (b, node, deps), r),
    ensures
        b.nodes@.contains_key(node@) && 0 <= j < deps@.len() ==> r.nodes@.contains_key(node@) && holds_text(
            r.nodes@[node@].dependencies@,
            deps@[j]@,
        ),
        b.nodes@.contains_key(node@) && holds_text(b.nodes@[node@].dependencies@, other) ==> holds_text(
            r.nodes@[node@].dependencies@,
            other,
        ),
        b.nodes@.contains_key(node@) ==> r.nodes@[node@].id == b.nodes@[node@].id && r.nodes@[node@].node_type
            == b.nodes@[node@].node_type,
        other != node@ ==> (r.nodes@.contains_key(other) <==> b.nodes@.contains_key(other)) && r.nodes@[other] == b.nodes@[other],
        r.config == b.config,
{
    let steps = choose|steps: Seq<Map<Seq<char>, NodeDefinition>>| #[trigger]
        dependencies_added(b.nodes@, r.nodes@, node@, deps@, steps);
    lemma_steps(steps, node@, deps@, deps@.len() as int, j, other);
}

proof fn lemma_steps(
    steps: Seq<Map<Seq<char>, NodeDefinition>>,
    node: Seq<char>,
    deps: Seq<String>,
    n: int,
    j: int,
    other: Seq<char>,
)
    requires
        steps.len() == deps.len() + 1,
        0 <= n <= deps.len(),
        forall|j: int| 0 <= j < deps.len() ==> dependency_added(steps[j], #[trigger] steps[j + 1], node, deps[j]@),
    ensures
        steps[0].contains_key(node) ==> steps[n].contains_key(node),
        steps[0].contains_key(node) && 0 <= j < n ==> holds_text(steps[n][node].dependencies@, deps[j]@),
        steps[0].contains_key(node) && holds_text(steps[0][node].dependencies@, other) ==> holds_text(
            steps[n][node].dependencies@,
            other,
        ),
        steps[0].contains_key(node) ==> steps[n][node].id == steps[0][node].id && steps[n][node].node_type
            == steps[0][node].node_type,
        other != node ==> (steps[n].contains_key(other) <==> steps[0].contains_key(other)) && steps[n][other] == steps[0][other],
    decreases n,
{
    if n > 0 {
        lemma_steps(steps, node, deps, n - 1, j, other);
        assert(dependency_added(steps[n - 1], steps[(n - 1) + 1], node, deps[n - 1]@));
        if steps[n - 1].contains_key(node) {
            let before = steps[n - 1][node].dependencies@;
            let after = steps[n][node].dependencies@;
            if !holds_text(before, deps[n - 1]@) {
                assert(views(after) == views(before).push(deps[n - 1]@));
                assert forall|t: Seq<char>| holds_text(before, t) implies holds_text(after, t) by {
                    let i = choose|i: int| 0 <= i < before.len() && (#[trigger] before[i])@ == t;
                    assert(views(after)[i] == views(before)[i]);
                    assert(after[i]@ == t);
                }
                assert(views(after)[before.len() as int] == deps[n - 1]@);
                assert(after[before.len() as int]@ == deps[n - 1]@);
            }
        } else {
            lemma_never_there(steps, node, deps, n - 1);
        }
    }
}

proof fn lemma_never_there(steps: Seq<Map<Seq<char>, NodeDefinition>>, node: Seq<char>, deps: Seq<String>, n: int)
    requires
        steps.len() == deps.len() + 1,
        0 <= n <= deps.len(),
        forall|j: int| 0 <= j < deps.len() ==> dependency_added(steps[j], #[trigger] steps[j + 1], node, deps[j]@),
        !steps[n].contains_key(node),
    ensures
        !steps[0].contains_key(node),
    decreases n,
{
    if n > 0 {
        assert(dependency_added(steps[n - 1], steps[(n - 1) + 1], node, deps[n - 1]@));
        lemma_never_there(steps, node, deps, n - 1);
    }
}

/// What holds of a node unless told otherwise.
pub proof fn new_node_is_plain(id: &str, node_type: &str, r: NodeDefinition, b: NodeBuilder)
    requires
        call_ensures(NodeDefinition::new, (id, node_type), r),
        call_ensures(NodeBuilder::new, (), b),
    ensures
        r.id@ == id@ && r.name@ == id@ && r.node_type@ == node_type@ && r.cacheable && r.dependencies@.len() == 0 && r.timeout is None
            && r.retry_policy is None && r.description is None && r.config is Null && r.metadata@ == Map::<
            Seq<char>,
            Value,
        >::empty(),
        b.node.node_type@ == "generic"@ && b.node.name@ == b.node.id@ && b.node.cacheable && b.node.dependencies@.len() == 0
            && b.node.timeout is None && b.node.retry_policy is None,
{
}

/// What is wrong with a workflow is said: a ring, else a dependency that is missing, else a node
/// without an id or a type.
pub proof fn faults_are_named(b: &DagFlowBuilder, cyclic: bool, r: Result<(), DaggerError>)
    requires
        call_ensures(DagFlowBuilder::has_cycles, (b,), cyclic),
        call_ensures(DagFlowBuilder::validate, (b,), r),
    ensures
        cyclic ==> (r matches Err(DaggerError::Validation { message, .. }) && message@ == "DAG contains cycles"@),
        r is Err ==> r->Err_0 is Validation,
        r is Err && !cyclic ==> {
            let said = r->Err_0->Validation_message@;
            ||| said == "Node ID cannot be empty"@
            ||| said == "Node type cannot be empty"@
            ||| exists|i: int, j: int|
                0 <= i < b.nodes.pairs().len() && 0 <= j < b.nodes.pairs()[i].1.dependencies@.len() && !b.nodes@.contains_key(
                    (#[trigger] b.nodes.pairs()[i].1.dependencies@[j])@,
                ) && said == "Node '"@ + b.nodes.pairs()[i].1.id@ + "' depends on non-existent node '"@
                    + b.nodes.pairs()[i].1.dependencies@[j]@ + "'"@
        },
{
    if r is Err && !cyclic {
        let pairs = b.nodes.pairs();
        let e = r->Err_0;
        if !all_present(pairs, b.nodes@) {
            let (i, j) = choose|i: int, j: int| #[trigger]
                first_missing_node(pairs, b.nodes@, i, j) && e.is_validation(
                    "Node '"@ + pairs[i].1.id@ + "' depends on non-existent node '"@ + pairs[i].1.dependencies@[j]@ + "'"@,
                );
            assert(!b.nodes@.contains_key(pairs[i].1.dependencies@[j]@));
        }
    }
}

} // verus!
