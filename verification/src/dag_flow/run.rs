//! Executing a workflow: what to launch in each round and what to do with the outcomes.

use super::cache::{as_count, parse_input_from_name, resolved, Cache};
use super::config::{DagConfig, OnFailure};
use super::dag::{all_edges, dependencies_known, edges_into, has_node, Dag};
use super::node::{create_execution_report, opt_view, report_error, DagExecutionReport, Node, NodeExecutionOutcome};
use super::schedule::{dependencies_done, find_ready_nodes, is_ready, ready_positions};
use crate::graph::{cyclic, is_path, joined_at, sources_within, topological};
use crate::string_map::StringSet;
use crate::text::{cat3, dec, decimal, decimal_injective, owned, same};
use crate::value::Json;
use vstd::prelude::*;

verus! {

/// A workflow that is being executed.
pub struct Run {
    /// What became of the nodes so far.
    pub outcomes: Vec<NodeExecutionOutcome>,
    /// Whether none of them failed.
    pub overall_success: bool,
    /// The nodes that ran.
    pub executed: StringSet,
    /// The nodes that run.
    pub executing: StringSet,
    /// How many tasks were launched and are not done.
    pub active: usize,
    /// How many nodes ran since the cache was saved.
    pub delta: usize,
}

/// What to do in a round.
#[derive(Debug)]
pub enum Round {
    /// There is nothing more to launch.
    Finish,
    /// Execution ends with this error; a human may have to look at it.
    Abort { error: String, needs_human: bool },
    /// The nodes at these positions are to be launched.
    Launch(Vec<usize>),
}

/// What to do after a node is done.
#[derive(Debug, Clone, Copy, PartialEq, Eq, Structural)]
pub enum Completion {
    /// Go on.
    GoOn,
    /// End with a report of failure.
    Stop,
    /// Save the cache, then end with a report of failure.
    Pause,
}

/// Node `i` is the first that runs the supervisor's action.
pub open spec fn supervisor_at(nodes: Seq<Node>, i: int) -> bool {
    &&& 0 <= i < nodes.len()
    &&& nodes[i].action@ == "supervisor_step"@
    &&& forall|j: int| 0 <= j < i ==> (#[trigger] nodes[j]).action@ != "supervisor_step"@
}

/// Which iteration `v` names, 0 where it names none.
pub open spec fn iteration_of(v: Result<Json, Seq<char>>) -> nat {
    if exists|n: u64| v == Ok::<Json, Seq<char>>(Json::Number(#[trigger] decimal(n as nat))) && n <= usize::MAX {
        (choose|n: u64| v == Ok::<Json, Seq<char>>(Json::Number(#[trigger] decimal(n as nat))) && n <= usize::MAX) as nat
    } else {
        0
    }
}

/// How far execution has come: the iteration that the input of the first supervisor node
/// names, or the number of nodes that ran where there is no supervisor.
pub open spec fn iteration(
    nodes: Seq<Node>,
    cache: Map<Seq<char>, Map<Seq<char>, Json>>,
    executed: Set<Seq<char>>,
) -> nat {
    if exists|i: int| supervisor_at(nodes, i) {
        iteration_of(resolved(cache, nodes[choose|i: int| supervisor_at(nodes, i)].inputs@, "iteration"@))
    } else {
        executed.len()
    }
}

/// A number of seconds as a signed 64-bit number.
pub open spec fn as_signed(t: u64) -> int {
    if t <= i64::MAX {
        t as int
    } else {
        t - 0x1_0000_0000_0000_0000
    }
}

/// Whether the iterations are used up.
pub open spec fn iterations_used_up(config: DagConfig, n: nat) -> bool {
    config.max_iterations is Some && n >= config.max_iterations->0
}

/// Whether the time is used up.
pub open spec fn time_used_up(config: DagConfig, elapsed_secs: int) -> bool {
    elapsed_secs > as_signed(
        if config.timeout_seconds is Some {
            config.timeout_seconds->0
        } else {
            3600
        },
    )
}

/// The error on which execution ends because a limit is reached, and whether a human has
/// to look at it.
pub open spec fn limit_reached(config: DagConfig, n: nat, elapsed_secs: int) -> Option<(Seq<char>, bool)> {
    if iterations_used_up(config, n) {
        Some(("Maximum iterations ("@ + decimal(config.max_iterations->0 as nat) + ") reached"@, true))
    } else if time_used_up(config, elapsed_secs) {
        Some(("DAG timeout exceeded"@, false))
    } else {
        None
    }
}

pub(crate) fn to_signed(t: u64) -> (r: i64)
    ensures
        r == as_signed(t),
{
    if t <= 0x7FFF_FFFF_FFFF_FFFF {
        t as i64
    } else {
        let below: u64 = 0xFFFF_FFFF_FFFF_FFFF - t;
        -(below as i64) - 1
    }
}

/// The limit that execution has reached.
pub fn check_limits(config: &DagConfig, n: usize, elapsed_secs: i64) -> (r: Option<(String, bool)>)
    ensures
        r is Some <==> limit_reached(*config, n as nat, elapsed_secs as int) is Some,
        r matches Some((e, human)) ==> limit_reached(*config, n as nat, elapsed_secs as int) == Some((e@, human)),
{
    if let Some(max) = config.max_iterations {
        if n as u64 >= max as u64 {
            return Some((cat3("Maximum iterations (", dec(max as u64).as_str(), ") reached"), true));
        }
    }
    let timeout: u64 = match config.timeout_seconds {
        Some(t) => t,
        None => 3600,
    };
    if elapsed_secs > to_signed(timeout) {
        return Some((owned("DAG timeout exceeded"), false));
    }
    None
}

/// What a round comes to before it is known what is ready.
pub open spec fn round_start(
    stopped: bool,
    dag: Option<&Dag>,
    config: DagConfig,
    cache: Map<Seq<char>, Map<Seq<char>, Json>>,
    executed: Set<Seq<char>>,
    elapsed_secs: int,
) -> RoundStart {
    if stopped || dag is None {
        RoundStart::Finish
    } else {
        match limit_reached(config, iteration(dag->0.nodes@, cache, executed), elapsed_secs) {
            Some((e, human)) => RoundStart::Abort(e, human),
            None => RoundStart::GoOn,
        }
    }
}

/// How a round starts.
pub enum RoundStart {
    Finish,
    Abort(Seq<char>, bool),
    GoOn,
}

/// Whether `r` is the first `n` of `all`.
pub open spec fn is_front(r: Seq<usize>, all: Seq<usize>, n: nat) -> bool {
    r == all.take(if n < all.len() {
        n as int
    } else {
        all.len() as int
    })
}

/// `r` are the nodes of a topological order that have not run.
pub open spec fn pending_in_order(nodes: Seq<Node>, order: Seq<usize>, executed: Set<Seq<char>>) -> Seq<usize>
    decreases order.len(),
{
    if order.len() == 0 {
        Seq::empty()
    } else {
        let rest = pending_in_order(nodes, order.drop_last(), executed);
        if executed.contains(nodes[order.last() as int].id@) {
            rest
        } else {
            rest.push(order.last())
        }
    }
}

impl Run {
    /// Nothing ran yet.
    pub fn new() -> (r: Self)
        ensures
            r.outcomes@.len() == 0,
            r.overall_success,
            r.executed@ == Set::<Seq<char>>::empty(),
            r.executing@ == Set::<Seq<char>>::empty(),
            r.active == 0,
            r.delta == 0,
            r.consistent(),
    {
        Run {
            outcomes: Vec::new(),
            overall_success: true,
            executed: StringSet::new(),
            executing: StringSet::new(),
            active: 0,
            delta: 0,
        }
    }

    /// Each node with an outcome counts as executed, and execution succeeded so far exactly
    /// where none of them failed.
    pub open spec fn consistent(&self) -> bool {
        &&& forall|i: int| 0 <= i < self.outcomes@.len() ==> self.executed@.contains((#[trigger] self.outcomes@[i]).node_id@)
        &&& self.overall_success == (forall|i: int| 0 <= i < self.outcomes@.len() ==> (#[trigger] self.outcomes@[i]).success)
        &&& self.delta <= 1001
    }

    /// How far execution has come.
    pub fn supervisor_iteration(&self, dag: &Dag, cache: &Cache) -> (r: usize)
        ensures
            r == iteration(dag.nodes@, cache@, self.executed@),
    {
        let mut i: usize = 0;
        while i < dag.nodes.len()
            invariant
                i <= dag.nodes.len(),
                forall|j: int| 0 <= j < i ==> (#[trigger] dag.nodes@[j]).action@ != "supervisor_step"@,
            decreases dag.nodes.len() - i,
        {
            if same(dag.nodes[i].action.as_str(), "supervisor_step") {
                proof {
                    assert(supervisor_at(dag.nodes@, i as int));
                    let k = choose|k: int| supervisor_at(dag.nodes@, k);
                    if k < i {
                        assert(dag.nodes@[k].action@ != "supervisor_step"@);
                    } else if k > i {
                        assert(dag.nodes@[i as int].action@ == "supervisor_step"@);
                    }
                }
                let ghost v = resolved(cache@, dag.nodes@[i as int].inputs@, "iteration"@);
                match parse_input_from_name(cache, "iteration", &dag.nodes[i].inputs) {
                    Ok(value) => match as_count(&value) {
                        Some(n) => {
                            if n <= usize::MAX as u64 {
                                proof {
                                    assert(v == Ok::<Json, Seq<char>>(Json::Number(decimal(n as nat))));
                                    let m = choose|m: u64|
                                        v == Ok::<Json, Seq<char>>(Json::Number(#[trigger] decimal(m as nat))) && m <= usize::MAX;
                                    decimal_injective(n as nat, m as nat);
                                }
                                return n as usize;
                            }
                            proof {
                                assert forall|m: u64| v == Ok::<Json, Seq<char>>(Json::Number(#[trigger] decimal(m as nat))) implies m
                                    > usize::MAX by {
                                    decimal_injective(n as nat, m as nat);
                                }
                            }
                            return 0;
                        },
                        None => {
                            return 0;
                        },
                    },
                    Err(_) => {
                        return 0;
                    },
                }
            }
            i = i + 1;
        }
        proof {
            if exists|k: int| supervisor_at(dag.nodes@, k) {
                let k = choose|k: int| supervisor_at(dag.nodes@, k);
                assert(dag.nodes@[k].action@ == "supervisor_step"@);
            }
        }
        self.executed.len()
    }

    /// A round of parallel execution: all nodes that can run are launched, those too
    /// that run already.
    pub fn parallel_round(&self, stopped: bool, dag: Option<&Dag>, cache: &Cache, elapsed_secs: i64, config: &DagConfig) -> (r:
        Round)
        ensures
            match round_start(stopped, dag, *config, cache@, self.executed@, elapsed_secs as int) {
                RoundStart::Finish => r is Finish,
                RoundStart::Abort(e, human) => r matches Round::Abort { error, needs_human } && error@ == e && needs_human == human,
                RoundStart::GoOn => match r {
                    Round::Launch(ready) => ready_positions(dag->0.nodes@, self.executed@, Set::empty(), ready@) && (ready@.len() > 0
                        || self.active > 0),
                    Round::Finish => self.active == 0 && (forall|i: int|
                        0 <= i < dag->0.nodes@.len() ==> !is_ready(#[trigger] dag->0.nodes@[i], self.executed@, Set::empty())),
                    Round::Abort { .. } => false,
                },
            },
    {
        if stopped {
            return Round::Finish;
        }
        let dag: &Dag = match dag {
            Some(d) => d,
            None => {
                return Round::Finish;
            },
        };
        let n: usize = self.supervisor_iteration(dag, cache);
        if let Some((error, needs_human)) = check_limits(config, n, elapsed_secs) {
            return Round::Abort { error, needs_human };
        }
        let nobody = StringSet::new();
        let total: usize = dag.nodes.len();
        let ready = find_ready_nodes(dag, &self.executed, &nobody);
        if self.active == 0 && ready.len() == 0 {
            proof {
                assert forall|i: int| 0 <= i < dag.nodes@.len() implies !is_ready(
                    #[trigger] dag.nodes@[i],
                    self.executed@,
                    Set::empty(),
                ) by {
                    assert(i < total);
                    assert(!ready@.contains(i as usize));
                }
            }
            return Round::Finish;
        }
        Round::Launch(ready)
    }

    /// A round of bounded execution: nodes that can run and do not run yet are launched, as
    /// long as no more than `max_parallel` run.
    pub fn bounded_round(
        &self,
        stopped: bool,
        dag: Option<&Dag>,
        cache: &Cache,
        elapsed_secs: i64,
        config: &DagConfig,
        max_parallel: usize,
    ) -> (r: Round)
        ensures
            match round_start(stopped, dag, *config, cache@, self.executed@, elapsed_secs as int) {
                RoundStart::Finish => r is Finish,
                RoundStart::Abort(e, human) => r matches Round::Abort { error, needs_human } && error@ == e && needs_human == human,
                RoundStart::GoOn => match r {
                    Round::Launch(launch) => exists|ready: Seq<usize>| #[trigger]
                        ready_positions(dag->0.nodes@, self.executed@, self.executing@, ready) && is_front(
                            launch@,
                            ready,
                            if max_parallel > self.executing@.len() {
                                (max_parallel - self.executing@.len()) as nat
                            } else {
                                0
                            },
                        ) && (ready.len() > 0 || self.executing@.len() > 0),
                    Round::Finish => self.executing@.len() == 0 && (forall|i: int|
                        0 <= i < dag->0.nodes@.len() ==> !is_ready(
                            #[trigger] dag->0.nodes@[i],
                            self.executed@,
                            self.executing@,
                        )),
                    Round::Abort { .. } => false,
                },
            },
    {
        if stopped {
            return Round::Finish;
        }
        let dag: &Dag = match dag {
            Some(d) => d,
            None => {
                return Round::Finish;
            },
        };
        let n: usize = self.supervisor_iteration(dag, cache);
        if let Some((error, needs_human)) = check_limits(config, n, elapsed_secs) {
            return Round::Abort { error, needs_human };
        }
        let mut ready = find_ready_nodes(dag, &self.executed, &self.executing);
        let ghost all = ready@;
        let total: usize = dag.nodes.len();
        let running: usize = self.executing.len();
        if ready.len() == 0 && running == 0 {
            proof {
                assert forall|i: int| 0 <= i < dag.nodes@.len() implies !is_ready(
                    #[trigger] dag.nodes@[i],
                    self.executed@,
                    self.executing@,
                ) by {
                    assert(i < total);
                    assert(!ready@.contains(i as usize));
                }
            }
            return Round::Finish;
        }
        let room: usize = if max_parallel > running {
            max_parallel - running
        } else {
            0
        };
        if ready.len() > room {
            ready.truncate(room);
        }
        proof {
            assert(is_front(ready@, all, room as nat)) by {
                if all.len() <= room {
                    assert(all.take(all.len() as int) =~= all);
                } else {
                    assert(ready@ =~= all.take(room as int));
                }
            }
        }
        Round::Launch(ready)
    }

    /// A round of sequential execution: the nodes that have not run, in topological order.
    pub fn sequential_round(&self, stopped: bool, dag: Option<&Dag>, cache: &Cache, elapsed_secs: i64, config: &DagConfig) -> (r:
        Round)
        requires
            dag is Some ==> dag->0.wf(),
        ensures
            match round_start(stopped, dag, *config, cache@, self.executed@, elapsed_secs as int) {
                RoundStart::Finish => r is Finish,
                RoundStart::Abort(e, human) => r matches Round::Abort { error, needs_human } && error@ == e && needs_human == human,
                RoundStart::GoOn => exists|order: Seq<usize>| #[trigger]
                    topological(dag->0.graph.edges(), dag->0.graph.size(), order) && match r {
                        Round::Launch(list) => list@.len() > 0 && list@ == pending_in_order(
                            dag->0.nodes@,
                            order,
                            self.executed@,
                        ),
                        Round::Finish => pending_in_order(dag->0.nodes@, order, self.executed@).len() == 0,
                        Round::Abort { .. } => false,
                    },
            },
    {
        if stopped {
            return Round::Finish;
        }
        let dag: &Dag = match dag {
            Some(d) => d,
            None => {
                return Round::Finish;
            },
        };
        let n: usize = self.supervisor_iteration(dag, cache);
        if let Some((error, needs_human)) = check_limits(config, n, elapsed_secs) {
            return Round::Abort { error, needs_human };
        }
        let order = dag.graph.topo_order();
        let mut list: Vec<usize> = Vec::new();
        let mut i: usize = 0;
        proof {
            assert(order@.take(0) =~= Seq::<usize>::empty());
        }
        while i < order.len()
            invariant
                i <= order.len(),
                dag.wf(),
                topological(dag.graph.edges(), dag.graph.size(), order@),
                list@ == pending_in_order(dag.nodes@, order@.take(i as int), self.executed@),
            decreases order.len() - i,
        {
            proof {
                assert(order@.take(i + 1).drop_last() =~= order@.take(i as int));
                assert(order@[i as int] < dag.graph.size());
            }
            let position: usize = order[i];
            if !self.executed.contains(dag.nodes[position].id.as_str()) {
                list.push(position);
            }
            i = i + 1;
        }
        proof {
            assert(order@.take(i as int) =~= order@);
        }
        if list.len() == 0 {
            return Round::Finish;
        }
        Round::Launch(list)
    }

    /// Whether the node `id` has not run.
    pub fn is_pending(&self, id: &str) -> (r: bool)
        ensures
            r == !self.executed@.contains(id@),
    {
        !self.executed.contains(id)
    }

    /// Takes note that a node was launched.
    pub fn launch(&mut self, id: &str)
        requires
            old(self).active < usize::MAX,
        ensures
            final(self).active == old(self).active + 1,
            final(self).executing@ == old(self).executing@.insert(id@),
            final(self).executed == old(self).executed,
            final(self).outcomes == old(self).outcomes,
            final(self).overall_success == old(self).overall_success,
            final(self).delta == old(self).delta,
            old(self).consistent() ==> final(self).consistent(),
    {
        self.active = self.active + 1;
        self.executing.insert(owned(id));
    }

    /// Takes note of what became of a node, and says what to do.
    pub fn complete(&mut self, outcome: NodeExecutionOutcome, on_failure: OnFailure) -> (r: Completion)
        requires
            old(self).active > 0,
        ensures
            final(self).active == old(self).active - 1,
            final(self).executing@ == old(self).executing@.remove(outcome.node_id@),
            final(self).executed@ == old(self).executed@.insert(outcome.node_id@),
            final(self).outcomes@ == old(self).outcomes@.push(outcome),
            final(self).overall_success == (old(self).overall_success && outcome.success),
            final(self).delta == old(self).delta,
            old(self).consistent() ==> final(self).consistent(),
            r == (if outcome.success || on_failure == OnFailure::Continue {
                Completion::GoOn
            } else if on_failure == OnFailure::Stop {
                Completion::Stop
            } else {
                Completion::Pause
            }),
    {
        self.active = self.active - 1;
        self.executing.remove(outcome.node_id.as_str());
        self.executed.insert(outcome.node_id.clone());
        let success: bool = outcome.success;
        self.outcomes.push(outcome);
        proof {
            if old(self).consistent() {
                let n = old(self).outcomes@.len();
                assert(self.outcomes@[n as int] == outcome);
                assert forall|i: int| 0 <= i < self.outcomes@.len() implies self.executed@.contains(
                    (#[trigger] self.outcomes@[i]).node_id@,
                ) by {
                    if i < n {
                        assert(old(self).executed@.contains(old(self).outcomes@[i].node_id@));
                    }
                }
                if old(self).overall_success && success {
                    assert forall|i: int| 0 <= i < self.outcomes@.len() implies (#[trigger] self.outcomes@[i]).success by {
                        if i < n {
                            assert(old(self).outcomes@[i].success);
                        }
                    }
                } else if !old(self).overall_success {
                    let i = choose|i: int| 0 <= i < n && !(#[trigger] old(self).outcomes@[i]).success;
                    assert(!self.outcomes@[i].success);
                }
            }
        }
        if !success {
            self.overall_success = false;
            match on_failure {
                OnFailure::Stop => Completion::Stop,
                OnFailure::Pause => Completion::Pause,
                OnFailure::Continue => Completion::GoOn,
            }
        } else {
            Completion::GoOn
        }
    }

    /// Whether the cache is to be saved after a node is done, `secs` seconds after it was
    /// saved last: after the configured time, or after more than a thousand nodes.
    pub fn snapshot_due(&mut self, config: &DagConfig, secs: u64) -> (r: bool)
        requires
            old(self).delta <= 1001,
        ensures
            r == (config.enable_incremental_cache && (secs > config.cache_snapshot_interval || old(self).delta > 1000)),
            final(self).delta == (if !config.enable_incremental_cache {
                old(self).delta as int
            } else if r {
                0
            } else {
                old(self).delta + 1
            }),
            *final(self) == (Run { delta: final(self).delta, ..*old(self) }),
    {
        if !config.enable_incremental_cache {
            return false;
        }
        if secs > config.cache_snapshot_interval || self.delta > 1000 {
            self.delta = 0;
            true
        } else {
            self.delta = self.delta + 1;
            false
        }
    }

    /// Adds an outcome that came after execution ended.
    pub fn collect(&mut self, outcome: NodeExecutionOutcome)
        ensures
            final(self).outcomes@ == old(self).outcomes@.push(outcome),
            *final(self) == (Run { outcomes: final(self).outcomes, ..*old(self) }),
    {
        self.outcomes.push(outcome);
    }

    /// The report of an execution that ended by itself or was paused.
    pub fn into_report(self) -> (r: DagExecutionReport)
        ensures
            r.node_outcomes == self.outcomes,
            r.overall_success == self.overall_success,
            opt_view(r.error) == report_error(self.outcomes@, None),
    {
        create_execution_report(self.outcomes, self.overall_success, None)
    }

    /// The report of an execution that failed, with an error where one is given.
    pub fn into_failure(self, error: Option<String>) -> (r: DagExecutionReport)
        ensures
            r.node_outcomes == self.outcomes,
            !r.overall_success,
            opt_view(r.error) == report_error(self.outcomes@, opt_view(error)),
    {
        create_execution_report(self.outcomes, false, error)
    }
}

/// Whether nodes run beside each other.
pub fn runs_in_parallel(config: &DagConfig, max_parallel: Option<usize>) -> (r: bool)
    ensures
        r == (config.enable_parallel_execution && max_parallel is Some),
{
    config.enable_parallel_execution && max_parallel.is_some()
}

/// A node that a round of parallel or bounded execution launches has not run, and all nodes
/// that it depends on have.
pub proof fn launched_nodes_are_due(nodes: Seq<Node>, executed: Set<Seq<char>>, executing: Set<Seq<char>>, ready: Seq<usize>, k: int)
    requires
        ready_positions(nodes, executed, executing, ready),
        0 <= k < ready.len(),
    ensures
        ready[k] < nodes.len(),
        !executed.contains(nodes[ready[k] as int].id@),
        dependencies_done(nodes[ready[k] as int], executed),
{
    assert(ready[k] < nodes.len());
    assert(ready.contains(ready[k]));
}

/// Where the dependencies of a workflow form no cycle and a node has not run, some node can
/// run: execution does not get stuck.
pub proof fn acyclic_workflow_progresses(dag: Dag, executed: Set<Seq<char>>, i: int)
    requires
        dag.wf(),
        !cyclic(dag.graph.edges()),
        0 <= i < dag.nodes@.len(),
        !executed.contains(dag.nodes@[i].id@),
    ensures
        exists|k: int| 0 <= k < dag.nodes@.len() && is_ready(#[trigger] dag.nodes@[k], executed, Set::empty()),
{
    let nodes = dag.nodes@;
    if !(exists|k: int| 0 <= k < nodes.len() && is_ready(#[trigger] nodes[k], executed, Set::empty())) {
        assert(has_node(nodes, nodes[i].id@));
        assert(dag.indices@.contains_key(nodes[i].id@));
        let start = dag.indices@[nodes[i].id@] as nat;
        let edges = dag.graph.edges();
        let w = Set::new(|n: nat| waiting(dag, executed, n));
        assert(fed_from_within(edges, nodes.len(), w)) by {
            assert forall|n: nat| #[trigger] w.contains(n) implies n < nodes.len() && has_source_in(edges, w, n) by {
                let m = lemma_stuck_step(dag, executed, n);
                assert(w.contains(m));
            }
        }
        assert(w.contains(start));
        let path = lemma_fed_path(edges, nodes.len(), w, start, nodes.len());
        lemma_long_path_closes(edges, path, nodes.len());
    }
}

/// A node that a round of sequential execution launches comes after all nodes that it depends
/// on and that have not run. Of nodes with the same id, the last is meant.
pub proof fn sequential_order_keeps_dependencies(dag: Dag, order: Seq<usize>, executed: Set<Seq<char>>, k: int, d: int)
    requires
        dag.wf(),
        topological(dag.graph.edges(), dag.graph.size(), order),
        0 <= k < pending_in_order(dag.nodes@, order, executed).len(),
        ({
            let n = pending_in_order(dag.nodes@, order, executed)[k];
            dag.indices@[dag.nodes@[n as int].id@] == n && 0 <= d < dag.nodes@[n as int].dependencies@.len()
        }),
    ensures
        ({
            let list = pending_in_order(dag.nodes@, order, executed);
            let needed = dag.nodes@[list[k] as int].dependencies@[d]@;
            executed.contains(needed) || exists|j: int| 0 <= j < k && dag.nodes@[(#[trigger] list[j]) as int].id@ == needed
        }),
{
    let nodes = dag.nodes@;
    let list = pending_in_order(nodes, order, executed);
    let i = lemma_pending_from(nodes, order, executed, k);
    let node = nodes[list[k] as int];
    let needed = node.dependencies@[d]@;
    let edges = dag.graph.edges();
    let edge = (dag.indices@[needed] as nat, list[k] as nat);
    assert(dependencies_known(node, dag.indices@));
    lemma_edge_present(dag.indices@, nodes, list[k] as int, d);
    assert(edges.contains(edge));
    assert(sources_within(edges, order[i] as nat, order.take(i)));
    let j = choose|j: int| 0 <= j < order.take(i).len() && (#[trigger] order.take(i)[j]) as nat == edge.0;
    if !executed.contains(needed) {
        lemma_pending_keeps(nodes, order.take(i), executed, j);
        let m = list.take(k).index_of(order.take(i)[j]);
        assert(list.take(k)[m] == list[m]);
    }
}

/// Where the dependencies of a workflow form no cycle, a round of sequential execution
/// launches every node that has not run.
pub proof fn sequential_order_is_complete(dag: Dag, order: Seq<usize>, executed: Set<Seq<char>>, n: usize)
    requires
        dag.wf(),
        !cyclic(dag.graph.edges()),
        topological(dag.graph.edges(), dag.graph.size(), order),
        n < dag.nodes@.len(),
        !executed.contains(dag.nodes@[n as int].id@),
    ensures
        pending_in_order(dag.nodes@, order, executed).contains(n),
{
    let edges = dag.graph.edges();
    let size = dag.graph.size();
    if !order.contains(n) {
        let w = Set::new(|m: nat| m < size && !order.contains(m as usize));
        assert(fed_from_within(edges, size, w)) by {
            assert forall|m: nat| #[trigger] w.contains(m) implies m < size && has_source_in(edges, w, m) by {
                assert(!sources_within(edges, (m as usize) as nat, order));
                let e = choose|e: (nat, nat)| #[trigger]
                    edges.contains(e) && e.1 == m && !(exists|j: int| 0 <= j < order.len() && (#[trigger] order[j]) as nat == e.0);
                assert(edges.contains(e) && e.1 == m);
                let t = edges.index_of(e);
                assert(edges[t] == e);
                if order.contains(e.0 as usize) {
                    let j = order.index_of(e.0 as usize);
                    assert(order[j] as nat == e.0);
                }
                assert(w.contains(e.0));
                assert(edges.contains((e.0, m)));
            }
        }
        assert(w.contains(n as nat));
        let path = lemma_fed_path(edges, size, w, n as nat, size);
        lemma_long_path_closes(edges, path, size);
    }
    lemma_pending_keeps(dag.nodes@, order, executed, order.index_of(n));
}

/// What is pending comes in order: before `k` stands what is pending of the nodes before it.
proof fn lemma_pending_from(nodes: Seq<Node>, order: Seq<usize>, executed: Set<Seq<char>>, k: int) -> (i: int)
    requires
        0 <= k < pending_in_order(nodes, order, executed).len(),
    ensures
        0 <= i < order.len(),
        order[i] == pending_in_order(nodes, order, executed)[k],
        pending_in_order(nodes, order.take(i), executed) == pending_in_order(nodes, order, executed).take(k),
    decreases order.len(),
{
    let list = pending_in_order(nodes, order, executed);
    let rest = pending_in_order(nodes, order.drop_last(), executed);
    if k < rest.len() {
        let i = lemma_pending_from(nodes, order.drop_last(), executed, k);
        assert(order.drop_last().take(i) =~= order.take(i));
        assert(list.take(k) =~= rest.take(k));
        i
    } else {
        assert(order.take(order.len() - 1) =~= order.drop_last());
        assert(list.take(k) =~= rest);
        order.len() - 1
    }
}

/// What has not run is pending.
proof fn lemma_pending_keeps(nodes: Seq<Node>, order: Seq<usize>, executed: Set<Seq<char>>, j: int)
    requires
        0 <= j < order.len(),
        !executed.contains(nodes[order[j] as int].id@),
    ensures
        pending_in_order(nodes, order, executed).contains(order[j]),
    decreases order.len(),
{
    let list = pending_in_order(nodes, order, executed);
    let rest = pending_in_order(nodes, order.drop_last(), executed);
    if j == order.len() - 1 {
        assert(list[rest.len() as int] == order[j]);
    } else {
        lemma_pending_keeps(nodes, order.drop_last(), executed, j);
        let m = rest.index_of(order[j]);
        assert(list[m] == order[j]);
    }
}

/// No node can run.
spec fn stuck(dag: Dag, executed: Set<Seq<char>>) -> bool {
    forall|k: int| 0 <= k < dag.nodes@.len() ==> !is_ready(#[trigger] dag.nodes@[k], executed, Set::empty())
}

/// The node at `n` is the one its id stands for, and has not run.
spec fn waiting(dag: Dag, executed: Set<Seq<char>>, n: nat) -> bool {
    &&& n < dag.nodes@.len()
    &&& dag.indices@.contains_key(dag.nodes@[n as int].id@)
    &&& dag.indices@[dag.nodes@[n as int].id@] == n
    &&& !executed.contains(dag.nodes@[n as int].id@)
}

/// Where no node can run, a node that has not run has a dependency that has not.
#[verifier::spinoff_prover]
proof fn lemma_stuck_step(dag: Dag, executed: Set<Seq<char>>, n: nat) -> (before: nat)
    requires
        dag.wf(),
        stuck(dag, executed),
        waiting(dag, executed, n),
    ensures
        waiting(dag, executed, before),
        dag.graph.edges().contains((before, n)),
{
    let node = dag.nodes@[n as int];
    assert(!is_ready(node, executed, Set::empty()));
    let d = choose|d: int| 0 <= d < node.dependencies@.len() && !executed.contains((#[trigger] node.dependencies@[d])@);
    let dep = node.dependencies@[d]@;
    assert(dag.indices@.contains_key(dep)) by {
        assert(dependencies_known(node, dag.indices@));
    }
    lemma_edge_present(dag.indices@, dag.nodes@, n as int, d);
    dag.indices@[dep] as nat
}

/// Whether each node of `w` is one of `size` nodes and has an edge from another of `w`.
pub open spec fn fed_from_within(edges: Seq<(nat, nat)>, size: nat, w: Set<nat>) -> bool {
    forall|n: nat| #[trigger] w.contains(n) ==> n < size && has_source_in(edges, w, n)
}

/// Whether an edge leads from a node of `w` to `n`.
pub open spec fn has_source_in(edges: Seq<(nat, nat)>, w: Set<nat>, n: nat) -> bool {
    exists|m: nat| w.contains(m) && #[trigger] edges.contains((m, n))
}

/// Where each node has a source among the nodes, paths of any length end at each of them.
pub proof fn lemma_fed_path(edges: Seq<(nat, nat)>, size: nat, w: Set<nat>, end: nat, steps: nat) -> (path: Seq<nat>)
    requires
        fed_from_within(edges, size, w),
        w.contains(end),
    ensures
        is_path(edges, path),
        path.len() == steps + 1,
        path.last() == end,
        forall|j: int| 0 <= j < path.len() ==> (#[trigger] path[j]) < size,
    decreases steps,
{
    if steps == 0 {
        seq![end]
    } else {
        assert(has_source_in(edges, w, end));
        let before = choose|m: nat| w.contains(m) && #[trigger] edges.contains((m, end));
        let rest = lemma_fed_path(edges, size, w, before, (steps - 1) as nat);
        lemma_path_push(edges, rest, end);
        rest.push(end)
    }
}

proof fn lemma_path_push(edges: Seq<(nat, nat)>, path: Seq<nat>, n: nat)
    requires
        is_path(edges, path),
        edges.contains((path.last(), n)),
    ensures
        is_path(edges, path.push(n)),
{
    let longer = path.push(n);
    assert forall|j: int| 0 <= j < longer.len() - 1 implies #[trigger] joined_at(edges, longer, j) by {
        if j < path.len() - 1 {
            assert(joined_at(edges, path, j));
        }
    }
}

/// Each dependency of a node has its edge.
pub proof fn lemma_edge_present(indices: Map<Seq<char>, usize>, nodes: Seq<Node>, n: int, d: int)
    requires
        0 <= n < nodes.len(),
        0 <= d < nodes[n].dependencies@.len(),
    ensures
        all_edges(indices, nodes).contains((indices[nodes[n].dependencies@[d]@] as nat, indices[nodes[n].id@] as nat)),
    decreases nodes.len(),
{
    let e = (indices[nodes[n].dependencies@[d]@] as nat, indices[nodes[n].id@] as nat);
    let head = all_edges(indices, nodes.drop_last());
    let tail = edges_into(indices, nodes.last().dependencies@, indices[nodes.last().id@] as nat);
    if n == nodes.len() - 1 {
        assert(tail[d] == e);
        assert((head + tail)[head.len() + d] == e);
    } else {
        lemma_edge_present(indices, nodes.drop_last(), n, d);
        let k = choose|k: int| 0 <= k < head.len() && head[k] == e;
        assert((head + tail)[k] == e);
    }
}

/// A path with more nodes than there are comes back to one of them.
pub proof fn lemma_long_path_closes(edges: Seq<(nat, nat)>, path: Seq<nat>, size: nat)
    requires
        is_path(edges, path),
        path.len() == size + 1,
        forall|j: int| 0 <= j < path.len() ==> (#[trigger] path[j]) < size,
    ensures
        cyclic(edges),
{
    if path.no_duplicates() {
        lemma_distinct_bounded(path, size);
    } else {
        let (a, b) = choose|a: int, b: int| 0 <= a < path.len() && 0 <= b < path.len() && a != b && path[a] == path[b];
        let lo = if a < b { a } else { b };
        let hi = if a < b { b } else { a };
        let part = path.subrange(lo, hi + 1);
        assert forall|j: int| 0 <= j < part.len() - 1 implies #[trigger] joined_at(edges, part, j) by {
            assert(joined_at(edges, path, lo + j));
        }
        assert(is_path(edges, part));
        assert(part[0] == part.last());
    }
}

/// Different numbers below `size` are at most `size` many.
proof fn lemma_distinct_bounded(v: Seq<nat>, size: nat)
    requires
        v.no_duplicates(),
        forall|j: int| 0 <= j < v.len() ==> (#[trigger] v[j]) < size,
    ensures
        v.len() <= size,
    decreases size,
{
    if size == 0 {
        if v.len() > 0 {
            assert(v[0] < size);
        }
    } else {
        let top = (size - 1) as nat;
        if exists|j: int| 0 <= j < v.len() && v[j] == top {
            let j = choose|j: int| 0 <= j < v.len() && v[j] == top;
            let w = v.remove(j);
            assert forall|k: int| 0 <= k < w.len() implies (#[trigger] w[k]) < top by {
                let o = if k < j { k } else { k + 1 };
                assert(w[k] == v[o]);
                assert(v[o] != v[j]);
                assert(v[o] < size);
            }
            assert(w.no_duplicates()) by {
                assert forall|x: int, y: int| 0 <= x < w.len() && 0 <= y < w.len() && x != y implies w[x] != w[y] by {
                    let a = if x < j { x } else { x + 1 };
                    let b = if y < j { y } else { y + 1 };
                    assert(v[a] != v[b]);
                }
            }
            lemma_distinct_bounded(w, top);
        } else {
            assert forall|k: int| 0 <= k < v.len() implies (#[trigger] v[k]) < top by {
                assert(v[k] < size);
                assert(v[k] != top);
            }
            lemma_distinct_bounded(v, top);
        }
    }
}

/// Where the iterations are not used up, a run ends for want of time exactly where more
/// seconds have passed than its configuration gives it; a configuration that gives none has
/// 3600.
pub proof fn time_ends_the_run(config: &DagConfig, n: usize, elapsed_secs: i64, r: Option<(String, bool)>)
    requires
        call_ensures(check_limits, (config, n, elapsed_secs), r),
        config.max_iterations matches Some(most) ==> n < most,
        config.timeout_seconds matches Some(t) ==> t <= i64::MAX,
    ensures
        config.timeout_seconds matches Some(t) ==> (r is Some <==> elapsed_secs > t),
        config.timeout_seconds is None ==> (r is Some <==> elapsed_secs > 3600),
        r matches Some((e, human)) ==> e@ == "DAG timeout exceeded"@ && !human,
{
}

/// A run ends, for a human to look at, where as many iterations were made as its configuration
/// gives it, however much time is left; one that gives none ends for no number of iterations.
pub proof fn iterations_end_the_run(config: &DagConfig, n: usize, elapsed_secs: i64, r: Option<(String, bool)>)
    requires
        call_ensures(check_limits, (config, n, elapsed_secs), r),
    ensures
        config.max_iterations matches Some(most) ==> {
            &&& n >= most ==> (r matches Some((e, human)) && human && e@ == "Maximum iterations ("@ + decimal(most as nat)
                + ") reached"@)
            &&& n < most ==> (r matches Some((e, human)) ==> !human)
        },
        config.max_iterations is None ==> (r matches Some((e, human)) ==> !human),
{
}

/// No node runs the supervisor's action.
pub open spec fn unsupervised(nodes: Seq<Node>) -> bool {
    forall|i: int| 0 <= i < nodes.len() ==> (#[trigger] nodes[i]).action@ != "supervisor_step"@
}

/// Whether a run without a supervisor may go on: fewer nodes have run than there may be
/// iterations, and no more seconds have passed than are given.
pub open spec fn has_time_and_iterations(run: Run, config: DagConfig, elapsed_secs: int) -> bool {
    &&& config.max_iterations matches Some(most) ==> run.executed@.len() < most
    &&& config.timeout_seconds matches Some(t) ==> t <= i64::MAX && elapsed_secs <= t
    &&& config.timeout_seconds is None ==> elapsed_secs <= 3600
}

/// Whether the node at `i` waits for nothing: it has not run, and all that it depends on has.
pub open spec fn waits_for_nothing(nodes: Seq<Node>, executed: Set<Seq<char>>, i: int) -> bool {
    &&& 0 <= i < nodes.len()
    &&& !executed.contains(nodes[i].id@)
    &&& forall|d: int| 0 <= d < nodes[i].dependencies@.len() ==> executed.contains((#[trigger] nodes[i].dependencies@[d])@)
}

/// A round of parallel execution that has time and iterations left launches exactly the nodes
/// that wait for nothing, each once, in the order of the definition; it ends the run only where
/// there is none and nothing runs.
pub proof fn parallel_round_launches_what_waits_for_nothing(
    run: &Run,
    dag: &Dag,
    cache: &Cache,
    elapsed_secs: i64,
    config: &DagConfig,
    r: Round,
)
    requires
        call_ensures(Run::parallel_round, (run, false, Some(dag), cache, elapsed_secs, config), r),
        unsupervised(dag.nodes@),
        dag.nodes@.len() <= usize::MAX,
        has_time_and_iterations(*run, *config, elapsed_secs as int),
    ensures
        r !is Abort,
        r matches Round::Launch(list) ==> {
            &&& forall|i: usize| #[trigger] list@.contains(i) <==> waits_for_nothing(dag.nodes@, run.executed@, i as int)
            &&& forall|a: int, b: int| 0 <= a < b < list@.len() ==> (#[trigger] list@[a]) < (#[trigger] list@[b])
        },
        r is Finish ==> run.active == 0 && forall|i: int| !waits_for_nothing(dag.nodes@, run.executed@, i),
{
    lemma_unsupervised(dag.nodes@);
    if let Round::Launch(list) = r {
        assert forall|i: usize| #[trigger] list@.contains(i) <==> waits_for_nothing(dag.nodes@, run.executed@, i as int) by {
            if list@.contains(i) {
                let a = list@.index_of(i);
                assert(list@[a] < dag.nodes@.len());
            }
            if i < dag.nodes@.len() {
                assert(list@.contains(i) <==> is_ready(dag.nodes@[i as int], run.executed@, Set::empty()));
            }
        }
    }
    if r is Finish {
        assert forall|i: int| !waits_for_nothing(dag.nodes@, run.executed@, i) by {
            if 0 <= i < dag.nodes@.len() {
                assert(!is_ready(dag.nodes@[i], run.executed@, Set::empty()));
            }
        }
    }
}

proof fn lemma_unsupervised(nodes: Seq<Node>)
    requires
        unsupervised(nodes),
    ensures
        !(exists|i: int| supervisor_at(nodes, i)),
{
    assert forall|i: int| !supervisor_at(nodes, i) by {
        if 0 <= i < nodes.len() {
            assert(nodes[i].action@ != "supervisor_step"@);
        }
    }
}

/// A round of bounded execution that has time and iterations left launches only nodes that wait
/// for nothing and do not run, no more than there is room for, and where there is such a node
/// and room, at least one.
pub proof fn bounded_round_keeps_to_its_bound(
    run: &Run,
    dag: &Dag,
    cache: &Cache,
    elapsed_secs: i64,
    config: &DagConfig,
    max_parallel: usize,
    r: Round,
)
    requires
        call_ensures(Run::bounded_round, (run, false, Some(dag), cache, elapsed_secs, config, max_parallel), r),
        unsupervised(dag.nodes@),
        dag.nodes@.len() <= usize::MAX,
        has_time_and_iterations(*run, *config, elapsed_secs as int),
    ensures
        r !is Abort,
        r matches Round::Launch(list) ==> {
            &&& forall|a: int|
                0 <= a < list@.len() ==> waits_for_nothing(dag.nodes@, run.executed@, (#[trigger] list@[a]) as int)
                    && !run.executing@.contains(dag.nodes@[list@[a] as int].id@)
            &&& list@.len() > 0 ==> list@.len() + run.executing@.len() <= max_parallel
            &&& forall|i: int|
                #![trigger dag.nodes@[i]]
                waits_for_nothing(dag.nodes@, run.executed@, i) && !run.executing@.contains(dag.nodes@[i].id@)
                    && run.executing@.len() + list@.len() < max_parallel ==> list@.contains(i as usize)
        },
        r is Finish ==> run.executing@.len() == 0 && forall|i: int|
            #![trigger dag.nodes@[i]]
            waits_for_nothing(dag.nodes@, run.executed@, i) ==> run.executing@.contains(dag.nodes@[i].id@),
{
    lemma_unsupervised(dag.nodes@);
    if let Round::Launch(list) = r {
        let room: nat = if max_parallel > run.executing@.len() {
            (max_parallel - run.executing@.len()) as nat
        } else {
            0
        };
        let ready = choose|ready: Seq<usize>| #[trigger]
            ready_positions(dag.nodes@, run.executed@, run.executing@, ready) && is_front(list@, ready, room) && (ready.len() > 0
                || run.executing@.len() > 0);
        assert forall|a: int| 0 <= a < list@.len() implies waits_for_nothing(
            dag.nodes@,
            run.executed@,
            (#[trigger] list@[a]) as int,
        ) && !run.executing@.contains(dag.nodes@[list@[a] as int].id@) by {
            assert(list@[a] == ready[a]);
            assert(ready.contains(ready[a]));
            assert(is_ready(dag.nodes@[ready[a] as int], run.executed@, run.executing@));
        }
        assert forall|i: int|
            #![trigger dag.nodes@[i]]
            waits_for_nothing(dag.nodes@, run.executed@, i) && !run.executing@.contains(dag.nodes@[i].id@)
                && run.executing@.len() + list@.len() < max_parallel implies list@.contains(i as usize) by {
            assert(is_ready(dag.nodes@[i], run.executed@, run.executing@));
            assert(ready.contains(i as usize));
            assert(list@ =~= ready);
        }
    }
    if r is Finish {
        assert forall|i: int|
            #![trigger dag.nodes@[i]]
            waits_for_nothing(dag.nodes@, run.executed@, i) implies run.executing@.contains(dag.nodes@[i].id@) by {
            assert(!is_ready(dag.nodes@[i], run.executed@, run.executing@));
        }
    }
}

/// Every round ends a run without a supervisor whose time is used up, without a human, where
/// iterations are left.
pub proof fn rounds_end_for_want_of_time(
    run: &Run,
    dag: &Dag,
    cache: &Cache,
    elapsed_secs: i64,
    config: &DagConfig,
    max_parallel: usize,
    r: Round,
)
    requires
        call_ensures(Run::parallel_round, (run, false, Some(dag), cache, elapsed_secs, config), r) || call_ensures(
            Run::bounded_round,
            (run, false, Some(dag), cache, elapsed_secs, config, max_parallel),
            r,
        ) || call_ensures(Run::sequential_round, (run, false, Some(dag), cache, elapsed_secs, config), r),
        unsupervised(dag.nodes@),
        config.max_iterations matches Some(most) ==> run.executed@.len() < most,
        config.timeout_seconds matches Some(t) ==> t <= i64::MAX && elapsed_secs > t,
        config.timeout_seconds is None ==> elapsed_secs > 3600,
    ensures
        r matches Round::Abort { error, needs_human } && error@ == "DAG timeout exceeded"@ && !needs_human,
{
    lemma_unsupervised(dag.nodes@);
}

/// Every round ends a run without a supervisor of which as many nodes have run as there may be
/// iterations, for a human to look at.
pub proof fn rounds_end_for_want_of_iterations(
    run: &Run,
    dag: &Dag,
    cache: &Cache,
    elapsed_secs: i64,
    config: &DagConfig,
    max_parallel: usize,
    most: u32,
    r: Round,
)
    requires
        call_ensures(Run::parallel_round, (run, false, Some(dag), cache, elapsed_secs, config), r) || call_ensures(
            Run::bounded_round,
            (run, false, Some(dag), cache, elapsed_secs, config, max_parallel),
            r,
        ) || call_ensures(Run::sequential_round, (run, false, Some(dag), cache, elapsed_secs, config), r),
        unsupervised(dag.nodes@),
        config.max_iterations == Some(most),
        run.executed@.len() >= most,
    ensures
        r matches Round::Abort { error, needs_human } && needs_human && error@ == "Maximum iterations ("@ + decimal(
            most as nat,
        ) + ") reached"@,
{
    lemma_unsupervised(dag.nodes@);
}

/// Every round finishes a run that was stopped, or whose workflow is gone.
pub proof fn stopped_run_finishes(
    run: &Run,
    stopped: bool,
    dag: Option<&Dag>,
    cache: &Cache,
    elapsed_secs: i64,
    config: &DagConfig,
    max_parallel: usize,
    r: Round,
)
    requires
        call_ensures(Run::parallel_round, (run, stopped, dag, cache, elapsed_secs, config), r) || call_ensures(
            Run::bounded_round,
            (run, stopped, dag, cache, elapsed_secs, config, max_parallel),
            r,
        ) || call_ensures(Run::sequential_round, (run, stopped, dag, cache, elapsed_secs, config), r),
        stopped || dag is None,
    ensures
        r is Finish,
{
}

/// A round of sequential execution that has time and iterations left launches only nodes that
/// have not run, each once, and a node after all nodes that it depends on and that have not run.
pub proof fn sequential_round_keeps_dependencies(
    run: &Run,
    dag: &Dag,
    cache: &Cache,
    elapsed_secs: i64,
    config: &DagConfig,
    r: Round,
)
    requires
        call_ensures(Run::sequential_round, (run, false, Some(dag), cache, elapsed_secs, config), r),
        dag.wf(),
        unsupervised(dag.nodes@),
        has_time_and_iterations(*run, *config, elapsed_secs as int),
    ensures
        r !is Abort,
        r matches Round::Launch(list) ==> {
            &&& list@.no_duplicates()
            &&& forall|k: int|
                0 <= k < list@.len() ==> (#[trigger] list@[k]) < dag.nodes@.len() && !run.executed@.contains(
                    dag.nodes@[list@[k] as int].id@,
                )
            &&& forall|k: int, d: int|
                #![trigger dag.nodes@[list@[k] as int].dependencies@[d]]
                0 <= k < list@.len() && dag.indices@[dag.nodes@[list@[k] as int].id@] == list@[k] && 0 <= d
                    < dag.nodes@[list@[k] as int].dependencies@.len() ==> {
                    let needed = dag.nodes@[list@[k] as int].dependencies@[d]@;
                    run.executed@.contains(needed) || exists|j: int|
                        0 <= j < k && dag.nodes@[(#[trigger] list@[j]) as int].id@ == needed
                }
        },
{
    lemma_unsupervised(dag.nodes@);
    if let Round::Launch(list) = r {
        let order = choose|order: Seq<usize>| #[trigger]
            topological(dag.graph.edges(), dag.graph.size(), order) && list@ == pending_in_order(
                dag.nodes@,
                order,
                run.executed@,
            );
        lemma_pending_is_part(dag.nodes@, order, run.executed@);
        assert forall|k: int, d: int|
            #![trigger dag.nodes@[list@[k] as int].dependencies@[d]]
            0 <= k < list@.len() && dag.indices@[dag.nodes@[list@[k] as int].id@] == list@[k] && 0 <= d
                < dag.nodes@[list@[k] as int].dependencies@.len() implies {
            let needed = dag.nodes@[list@[k] as int].dependencies@[d]@;
            run.executed@.contains(needed) || exists|j: int|
                0 <= j < k && dag.nodes@[(#[trigger] list@[j]) as int].id@ == needed
        } by {
            sequential_order_keeps_dependencies(*dag, order, run.executed@, k, d);
        }
    }
}

/// Without a cycle, a round of sequential execution that has time and iterations left launches
/// every node that has not run, and finishes only where there is none.
pub proof fn sequential_round_launches_all(
    run: &Run,
    dag: &Dag,
    cache: &Cache,
    elapsed_secs: i64,
    config: &DagConfig,
    r: Round,
    n: usize,
)
    requires
        call_ensures(Run::sequential_round, (run, false, Some(dag), cache, elapsed_secs, config), r),
        dag.wf(),
        !cyclic(dag.graph.edges()),
        unsupervised(dag.nodes@),
        has_time_and_iterations(*run, *config, elapsed_secs as int),
        n < dag.nodes@.len(),
        !run.executed@.contains(dag.nodes@[n as int].id@),
    ensures
        r matches Round::Launch(list) && list@.contains(n),
{
    lemma_unsupervised(dag.nodes@);
    let order = choose|order: Seq<usize>| #[trigger]
        topological(dag.graph.edges(), dag.graph.size(), order) && match r {
            Round::Launch(list) => list@.len() > 0 && list@ == pending_in_order(dag.nodes@, order, run.executed@),
            Round::Finish => pending_in_order(dag.nodes@, order, run.executed@).len() == 0,
            Round::Abort { .. } => false,
        };
    sequential_order_is_complete(*dag, order, run.executed@, n);
}

proof fn lemma_pending_is_part(nodes: Seq<Node>, order: Seq<usize>, executed: Set<Seq<char>>)
    requires
        order.no_duplicates(),
    ensures
        pending_in_order(nodes, order, executed).no_duplicates(),
        forall|k: int|
            0 <= k < pending_in_order(nodes, order, executed).len() ==> order.contains(
                #[trigger] pending_in_order(nodes, order, executed)[k],
            ) && !executed.contains(nodes[pending_in_order(nodes, order, executed)[k] as int].id@),
    decreases order.len(),
{
    if order.len() > 0 {
        let rest = order.drop_last();
        lemma_pending_is_part(nodes, rest, executed);
        let before = pending_in_order(nodes, rest, executed);
        let list = pending_in_order(nodes, order, executed);
        assert forall|k: int| 0 <= k < list.len() implies order.contains(#[trigger] list[k]) && !executed.contains(
            nodes[list[k] as int].id@,
        ) by {
            if k < before.len() {
                assert(list[k] == before[k]);
                let j = rest.index_of(before[k]);
                assert(order[j] == list[k]);
            } else {
                assert(order[order.len() - 1] == list[k]);
            }
        }
        assert forall|a: int, b: int| 0 <= a < b < list.len() implies list[a] != list[b] by {
            assert(list[a] == before[a]);
            let j = rest.index_of(before[a]);
            assert(order[j] == list[a]);
            if b < before.len() {
                assert(list[b] == before[b]);
            } else {
                assert(list[b] == order[order.len() - 1]);
            }
        }
    }
}

/// A node that is done counts as run and not as running, its outcome is kept last, and a run
/// succeeds so far where it did and the node did. What follows a failure is what was asked for.
pub proof fn completed_node_is_noted(run: &mut Run, outcome: NodeExecutionOutcome, on_failure: OnFailure, r: Completion)
    requires
        call_ensures(Run::complete, (run, outcome, on_failure), r),
    ensures
        final(run).outcomes@ == old(run).outcomes@.push(outcome),
        final(run).executed@.contains(outcome.node_id@),
        !final(run).executing@.contains(outcome.node_id@),
        final(run).active + 1 == old(run).active,
        final(run).overall_success <==> old(run).overall_success && outcome.success,
        forall|k: Seq<char>|
            #![trigger final(run).executed@.contains(k)]
            k != outcome.node_id@ ==> (final(run).executed@.contains(k) <==> old(run).executed@.contains(k)) && (
            final(run).executing@.contains(k) <==> old(run).executing@.contains(k)),
        outcome.success ==> r == Completion::GoOn,
        !outcome.success && on_failure == OnFailure::Continue ==> r == Completion::GoOn,
        !outcome.success && on_failure == OnFailure::Stop ==> r == Completion::Stop,
        !outcome.success && on_failure == OnFailure::Pause ==> r == Completion::Pause,
{
}

/// A report holds the outcomes of all nodes in order; one that was asked to fail does.
pub proof fn report_holds_the_outcomes(run: Run, error: Option<String>, good: DagExecutionReport, bad: DagExecutionReport)
    requires
        call_ensures(Run::into_report, (run,), good),
        call_ensures(Run::into_failure, (run, error), bad),
    ensures
        good.node_outcomes == run.outcomes,
        good.overall_success == run.overall_success,
        bad.node_outcomes == run.outcomes,
        !bad.overall_success,
{
}

/// The cache is saved while a workflow runs only where that is asked for, and then after more
/// seconds than the interval or more than a thousand nodes.
pub proof fn cache_is_saved_when_due(run: &mut Run, config: &DagConfig, secs: u64, r: bool)
    requires
        call_ensures(Run::snapshot_due, (run, config, secs), r),
    ensures
        !config.enable_incremental_cache ==> !r,
        config.enable_incremental_cache && secs > config.cache_snapshot_interval ==> r,
        config.enable_incremental_cache && old(run).delta > 1000 ==> r,
        secs <= config.cache_snapshot_interval && old(run).delta <= 1000 ==> !r,
        r ==> final(run).delta == 0,
{
}

/// Nodes run beside each other exactly where that is asked for and a bound is known.
pub proof fn parallel_where_asked(config: &DagConfig, max_parallel: Option<usize>, r: bool)
    requires
        call_ensures(runs_in_parallel, (config, max_parallel), r),
    ensures
        r <==> config.enable_parallel_execution && max_parallel is Some,
{
}

/// How far a run has come is the iteration that the first supervisor reads, where it reads a
/// number, and how many nodes ran where there is no supervisor.
pub proof fn progress_is_the_supervisors(run: &Run, dag: &Dag, cache: &Cache, r: usize, i: int, k: int, node: Seq<char>, output: Seq<char>, n: u64)
    requires
        call_ensures(Run::supervisor_iteration, (run, dag, cache), r),
    ensures
        (forall|j: int| 0 <= j < dag.nodes@.len() ==> (#[trigger] dag.nodes@[j]).action@ != "supervisor_step"@) ==> r
            == run.executed@.len(),
        0 <= i < dag.nodes@.len() && dag.nodes@[i].action@ == "supervisor_step"@ && (forall|j: int|
            0 <= j < i ==> (#[trigger] dag.nodes@[j]).action@ != "supervisor_step"@) && 0 <= k < dag.nodes@[i].inputs@.len()
            && dag.nodes@[i].inputs@[k].name@ == "iteration"@ && (forall|j: int|
            0 <= j < k ==> (#[trigger] dag.nodes@[i].inputs@[j]).name@ != "iteration"@) && dag.nodes@[i].inputs@[k].reference@
            == node + seq!['.'] + output && !node.contains('.') && !output.contains('.') && cache@.contains_key(node)
            && cache@[node].contains_key(output) && cache@[node][output] == Json::Number(decimal(n as nat)) && n <= usize::MAX
            ==> r == n,
{
    let nodes = dag.nodes@;
    if 0 <= i < nodes.len() && nodes[i].action@ == "supervisor_step"@ && (forall|j: int|
        0 <= j < i ==> (#[trigger] nodes[j]).action@ != "supervisor_step"@) && 0 <= k < nodes[i].inputs@.len()
        && nodes[i].inputs@[k].name@ == "iteration"@ && (forall|j: int|
        0 <= j < k ==> (#[trigger] nodes[i].inputs@[j]).name@ != "iteration"@) && nodes[i].inputs@[k].reference@ == node
        + seq!['.'] + output && !node.contains('.') && !output.contains('.') && cache@.contains_key(node)
        && cache@[node].contains_key(output) && cache@[node][output] == Json::Number(decimal(n as nat)) && n <= usize::MAX {
        assert(supervisor_at(nodes, i));
        let c = choose|c: int| supervisor_at(nodes, c);
        if c < i {
            assert(nodes[c].action@ != "supervisor_step"@);
        } else if i < c {
            assert(nodes[i].action@ != "supervisor_step"@);
        }
        super::cache::lemma_resolved(cache@, nodes[i].inputs@, "iteration"@, k, node, output);
        let v = resolved(cache@, nodes[i].inputs@, "iteration"@);
        assert(v == Ok::<Json, Seq<char>>(Json::Number(decimal(n as nat))));
        let m = choose|m: u64| v == Ok::<Json, Seq<char>>(Json::Number(#[trigger] decimal(m as nat))) && m <= usize::MAX;
        crate::text::decimal_injective(m as nat, n as nat);
    }
}

} // verus!
