//! The coordinator: which nodes run, what their workers are given, and how a workflow grows
//! while it runs.

use super::action::NodeOutput;
use super::types::{ExecutionEvent, ExecutorCommand, NodeOutcome, NodeRef};
use crate::dag_flow::branch::{cancelled_state, paused_state, resumed_state, with_branch, BranchState};
use crate::dag_flow::cache::{lookup, Cache};
use crate::dag_flow::config::DagConfig;
use crate::dag_flow::dag::{all_edges, Dag};
use crate::dag_flow::events::RuntimeEventEnvelope;
use crate::dag_flow::executor::{
    has_room, inputs_set, reports, spec_dependencies, specs_added, DagExecutor, ExecutorView, Refusal,
};
use crate::dag_flow::node::{DagError, IField, Node};
use crate::dag_flow::operations::told;
use crate::dag_flow::planning::{spec_views, NodeSpec};
use crate::dag_flow::run::{fed_from_within, has_source_in, lemma_edge_present, lemma_fed_path, lemma_long_path_closes};
use crate::graph::cyclic;
use crate::string_map::StringSet;
use crate::text::{
    begins_with, cat2, cat4, lemma_pieces_nonempty, owned, pieces, plain_text_is_one_piece, same,
    separator_parts_the_pieces, split, strip_prefix, views,
};
use crate::value::{lemma_some_member, member, member_at, member_set, members_json, object, set_member, set_member_is_found, Json, Value};
use vstd::prelude::*;

verus! {

/// Whether everything that the node called `id` waits for is completed.
pub open spec fn waits_over(dag: Dag, id: Seq<char>, completed: Set<Seq<char>>) -> bool {
    forall|e: (nat, nat)| #[trigger]
        dag.graph.edges().contains(e) && e.1 == dag.indices@[id] as nat ==> completed.contains(dag.nodes@[e.0 as int].id@)
}

/// Whether the node called `id` can run.
pub open spec fn can_run(dag: Dag, id: Seq<char>, completed: Set<Seq<char>>) -> bool {
    !completed.contains(id) && waits_over(dag, id, completed)
}

/// Those of the first `n` nodes that can run.
pub open spec fn runnable(dag: Dag, completed: Set<Seq<char>>, n: int) -> Seq<Seq<char>>
    decreases n,
{
    if n <= 0 {
        Seq::empty()
    } else {
        let before = runnable(dag, completed, n - 1);
        let id = dag.indices.pairs()[n - 1].0@;
        if can_run(dag, id, completed) {
            before.push(id)
        } else {
            before
        }
    }
}

fn sources_done(dag: &Dag, position: usize, completed: &StringSet) -> (r: bool)
    requires
        dag.wf(),
        position < dag.nodes@.len(),
    ensures
        r == (forall|e: (nat, nat)| #[trigger]
            dag.graph.edges().contains(e) && e.1 == position as nat ==> completed@.contains(dag.nodes@[e.0 as int].id@)),
{
    let sources = dag.graph.sources(position);
    let ghost edges = dag.graph.edges();
    let mut i: usize = 0;
    while i < sources.len()
        invariant
            i <= sources@.len(),
            dag.wf(),
            edges == dag.graph.edges(),
            forall|s: usize| sources@.contains(s) <==> edges.contains((s as nat, position as nat)),
            forall|j: int| 0 <= j < i ==> completed@.contains(dag.nodes@[#[trigger] sources@[j] as int].id@),
        decreases sources.len() - i,
    {
        proof {
            let s = sources@[i as int];
            assert(sources@.contains(s));
            assert(edges.contains((s as nat, position as nat)));
            let k = choose|k: int| 0 <= k < edges.len() && edges[k] == (s as nat, position as nat);
            assert(edges[k].0 < dag.graph.size());
        }
        let source: usize = sources[i];
        if !completed.contains(dag.nodes[source].id.as_str()) {
            proof {
                let e = (source as nat, position as nat);
                assert(edges.contains(e));
            }
            return false;
        }
        i = i + 1;
    }
    proof {
        assert forall|e: (nat, nat)| #[trigger]
            edges.contains(e) && e.1 == position as nat implies completed@.contains(dag.nodes@[e.0 as int].id@) by {
            let k = choose|k: int| 0 <= k < edges.len() && edges[k] == e;
            assert(edges[k].0 < dag.graph.size());
            let s = e.0 as usize;
            assert(sources@.contains(s));
            let j = choose|j: int| 0 <= j < sources@.len() && sources@[j] == s;
            assert(completed@.contains(dag.nodes@[sources@[j] as int].id@));
        }
    }
    true
}

/// The nodes of a workflow that can run: not completed, and nothing that they wait for is
/// left.
pub fn get_ready_nodes<A>(exec: &DagExecutor<A>, dag_name: &str, completed: &StringSet) -> (r: Result<Vec<String>, String>)
    requires
        exec.wf(),
    ensures
        r is Ok <==> exec.prebuilt_dags@.contains_key(dag_name@),
        r matches Ok(v) ==> {
            let dag = exec.prebuilt_dags@[dag_name@];
            views(v@) == runnable(dag, completed@, dag.indices.pairs().len() as int)
        },
        r matches Err(e) ==> e@ == "DAG not found: "@ + dag_name@,
{
    let dag = match exec.prebuilt_dags.get(dag_name) {
        Some(d) => d,
        None => {
            return Err(cat2("DAG not found: ", dag_name));
        },
    };
    let ghost pairs = dag.indices.pairs();
    let n: usize = dag.indices.len();
    let mut r: Vec<String> = Vec::new();
    let mut i: usize = 0;
    proof {
        assert(views(r@) =~= runnable(*dag, completed@, 0));
    }
    while i < n
        invariant
            i <= n,
            dag.wf(),
            n == pairs.len(),
            pairs == dag.indices.pairs(),
            views(r@) == runnable(*dag, completed@, i as int),
        decreases n - i,
    {
        let id = dag.indices.key_at(i);
        let position: usize = *dag.indices.value_at(i);
        proof {
            use_type_invariant(&dag.indices);
            crate::string_map::lemma_entry(pairs, i as int);
            assert(dag.indices@.contains_key(id@));
            assert(dag.indices@[id@] == position);
        }
        let ghost before = views(r@);
        if !completed.contains(id.as_str()) && sources_done(dag, position, completed) {
            r.push(id.clone());
            proof {
                assert(views(r@) =~= before.push(id@));
            }
        }
        i = i + 1;
    }
    Ok(r)
}

/// Whether every node of a workflow is completed.
pub fn is_complete<A>(exec: &DagExecutor<A>, dag_name: &str, completed: &StringSet) -> (r: Result<bool, String>)
    requires
        exec.wf(),
    ensures
        r is Ok <==> exec.prebuilt_dags@.contains_key(dag_name@),
        r matches Ok(b) ==> b == all_completed(exec.prebuilt_dags@[dag_name@], completed@),
        r matches Err(e) ==> e@ == "DAG not found: "@ + dag_name@,
{
    let dag = match exec.prebuilt_dags.get(dag_name) {
        Some(d) => d,
        None => {
            return Err(cat2("DAG not found: ", dag_name));
        },
    };
    let ghost pairs = dag.indices.pairs();
    let n: usize = dag.indices.len();
    let mut i: usize = 0;
    while i < n
        invariant
            i <= n,
            n == pairs.len(),
            pairs == dag.indices.pairs(),
            *dag == exec.prebuilt_dags@[dag_name@],
            exec.prebuilt_dags@.contains_key(dag_name@),
            forall|j: int| 0 <= j < i ==> completed@.contains((#[trigger] pairs[j]).0@),
        decreases n - i,
    {
        let id = dag.indices.key_at(i);
        if !completed.contains(id.as_str()) {
            proof {
                use_type_invariant(&dag.indices);
                crate::string_map::lemma_entry(pairs, i as int);
                assert(dag.indices@.contains_key(id@));
            }
            return Ok(false);
        }
        i = i + 1;
    }
    proof {
        use_type_invariant(&dag.indices);
        assert forall|k: Seq<char>| #[trigger] dag.indices@.contains_key(k) implies completed@.contains(k) by {
            let j = crate::string_map::key_index(pairs, k);
            assert(pairs[j].0@ == k);
        }
    }
    Ok(true)
}

/// Whether every node is completed.
pub open spec fn all_completed(dag: Dag, completed: Set<Seq<char>>) -> bool {
    forall|k: Seq<char>| #[trigger] dag.indices@.contains_key(k) ==> completed.contains(k)
}

/// What a worker reads for a reference: `inputs.` and a key for an input of the workflow, a
/// node and a key for an output of that node, and else nothing.
pub open spec fn worker_input(cache: Map<Seq<char>, Map<Seq<char>, Json>>, reference: Seq<char>) -> Json {
    let parts = pieces(reference, '.');
    let found = if begins_with(reference, "inputs."@) {
        lookup(cache, "inputs"@, reference.skip("inputs."@.len() as int))
    } else if parts.len() == 2 {
        lookup(cache, parts[0], parts[1])
    } else {
        None
    };
    if found is Some {
        found->0
    } else {
        Json::Null
    }
}

/// What a worker reads for a reference.
pub fn resolve_input(cache: &Cache, reference: &str) -> (r: Value)
    ensures
        r@ == worker_input(cache@, reference@),
{
    let found: Option<Value> = match strip_prefix(reference, "inputs.") {
        Some(key) => match cache.get_value("inputs", key.as_str()) {
            Some(v) => Some(v.clone()),
            None => None,
        },
        None => {
            let parts = split(reference, '.');
            proof {
                assert(views(parts@).len() == parts@.len());
            }
            if parts.len() == 2 {
                proof {
                    assert(views(parts@)[0] == parts@[0]@);
                    assert(views(parts@)[1] == parts@[1]@);
                }
                match cache.get_value(parts[0].as_str(), parts[1].as_str()) {
                    Some(v) => Some(v.clone()),
                    None => None,
                }
            } else {
                None
            }
        },
    };
    match found {
        Some(v) => v,
        None => Value::Null,
    }
}

/// What a worker is given for the first `n` inputs of its node.
pub open spec fn worker_inputs(cache: Map<Seq<char>, Map<Seq<char>, Json>>, fields: Seq<IField>, n: int) -> Seq<(Seq<char>, Json)>
    decreases n,
{
    if n <= 0 {
        Seq::empty()
    } else {
        member_set(
            worker_inputs(cache, fields, n - 1),
            fields[n - 1].name@,
            worker_input(cache, fields[n - 1].reference@),
        )
    }
}

/// What a worker is given for its node's inputs: an object of their names.
pub fn resolve_inputs(cache: &Cache, fields: &Vec<IField>) -> (r: Value)
    ensures
        r@ == Json::Object(worker_inputs(cache@, fields@, fields@.len() as int)),
{
    object(resolve_members(cache, fields))
}

fn resolve_members(cache: &Cache, fields: &Vec<IField>) -> (r: Vec<(String, Value)>)
    ensures
        members_json(r@) == worker_inputs(cache@, fields@, fields@.len() as int),
{
    let mut members: Vec<(String, Value)> = Vec::new();
    let mut i: usize = 0;
    proof {
        assert(members_json(members@) =~= worker_inputs(cache@, fields@, 0));
    }
    while i < fields.len()
        invariant
            i <= fields@.len(),
            members_json(members@) == worker_inputs(cache@, fields@, i as int),
        decreases fields.len() - i,
    {
        let v = resolve_input(cache, fields[i].reference.as_str());
        set_member(&mut members, fields[i].name.as_str(), v);
        i = i + 1;
    }
    members
}

/// Members with the first `n` of `over` set in them.
pub open spec fn overlaid(members: Seq<(Seq<char>, Json)>, over: Seq<(Seq<char>, Json)>, n: int) -> Seq<(Seq<char>, Json)>
    decreases n,
{
    if n <= 0 {
        members
    } else {
        member_set(overlaid(members, over, n - 1), over[n - 1].0, over[n - 1].1)
    }
}

/// What a worker is given where `resolved` are the inputs of its node and `set` was set for the
/// node: the members of an object go before the inputs, and any other value goes in their
/// place.
pub open spec fn given_inputs(resolved: Seq<(Seq<char>, Json)>, set: Option<Json>) -> Json {
    match set {
        None => Json::Object(resolved),
        Some(Json::Object(over)) => Json::Object(overlaid(resolved, over, over.len() as int)),
        Some(v) => v,
    }
}

fn overlay(resolved: Vec<(String, Value)>, set: Option<&Value>) -> (r: Value)
    ensures
        r@ == given_inputs(
            members_json(resolved@),
            match set {
                Some(v) => Some(v@),
                None => None,
            },
        ),
{
    let mut members: Vec<(String, Value)> = resolved;
    match set {
        None => object(members),
        Some(Value::Object(over)) => {
            let ghost before = members_json(members@);
            let ghost all = members_json(over@);
            let mut i: usize = 0;
            proof {
                assert(set->0@->Object_0 =~= all);
            }
            while i < over.len()
                invariant
                    i <= over@.len(),
                    all == members_json(over@),
                    members_json(members@) == overlaid(before, all, i as int),
                decreases over.len() - i,
            {
                set_member(&mut members, over[i].0.as_str(), over[i].1.clone());
                i = i + 1;
            }
            object(members)
        },
        Some(v) => {
            proof {
                assert(!(v@ is Object));
            }
            v.clone()
        },
    }
}

/// What a worker needs to run a node.
#[derive(Debug)]
pub struct Launch {
    pub node: NodeRef,
    pub action: String,
    pub inputs: Value,
    /// How long it may take, in seconds.
    pub timeout: u64,
}

/// Why no worker can be started for a node.
pub open spec fn launch_problem<A>(exec: DagExecutor<A>, dag_name: Seq<char>, node_id: Seq<char>) -> Option<Seq<char>> {
    if !exec.prebuilt_dags@.contains_key(dag_name) {
        Some("DAG not found: "@ + dag_name)
    } else {
        let dag = exec.prebuilt_dags@[dag_name];
        if !dag.indices@.contains_key(node_id) {
            Some("Node not found: "@ + node_id)
        } else {
            let action = dag.nodes@[dag.indices@[node_id] as int].action@;
            if !exec.function_registry@.contains_key(action) {
                Some("Action not found: "@ + action)
            } else {
                None
            }
        }
    }
}

/// Whether `l` is what a worker needs to run a node for which `set` was set.
pub open spec fn launches(
    l: Launch,
    dag: Dag,
    dag_name: Seq<char>,
    node_id: Seq<char>,
    cache: Map<Seq<char>, Map<Seq<char>, Json>>,
    set: Option<Json>,
) -> bool {
    let node = dag.nodes@[dag.indices@[node_id] as int];
    &&& l.node.dag_name@ == dag_name
    &&& l.node.node_id@ == node_id
    &&& l.action@ == node.action@
    &&& l.inputs@ == given_inputs(worker_inputs(cache, node.inputs@, node.inputs@.len() as int), set)
    &&& l.timeout == node.timeout
}

/// What a worker needs to run a node.
pub fn prepare_worker<A>(exec: &DagExecutor<A>, dag_name: &str, node_id: &str, cache: &Cache) -> (r: Result<Launch, String>)
    requires
        exec.wf(),
    ensures
        r is Ok <==> launch_problem(*exec, dag_name@, node_id@) is None,
        r matches Ok(l) ==> launches(
            l,
            exec.prebuilt_dags@[dag_name@],
            dag_name@,
            node_id@,
            cache@,
            lookup(exec@.inputs, dag_name@, node_id@),
        ),
        r matches Err(e) ==> launch_problem(*exec, dag_name@, node_id@) == Some(e@),
{
    let dag = match exec.prebuilt_dags.get(dag_name) {
        Some(d) => d,
        None => {
            return Err(cat2("DAG not found: ", dag_name));
        },
    };
    let position: usize = match dag.indices.get(node_id) {
        Some(p) => *p,
        None => {
            return Err(cat2("Node not found: ", node_id));
        },
    };
    let node = &dag.nodes[position];
    if !exec.function_registry.contains(node.action.as_str()) {
        return Err(cat2("Action not found: ", node.action.as_str()));
    }
    Ok(
        Launch {
            node: NodeRef { dag_name: owned(dag_name), node_id: owned(node_id) },
            action: node.action.clone(),
            inputs: overlay(resolve_members(cache, &node.inputs), exec.node_inputs.get_value(dag_name, node_id)),
            timeout: node.timeout,
        },
    )
}

/// How a worker ended.
#[derive(Debug)]
pub enum WorkerResult {
    /// The action returned.
    Returned(NodeOutput),
    /// The action failed.
    Failed(String),
    /// The action took too long.
    TimedOut(String),
}

/// What a worker reports when it ends.
pub fn worker_event(node: NodeRef, result: WorkerResult) -> (r: ExecutionEvent)
    ensures
        match result {
            WorkerResult::Returned(output) => r == (ExecutionEvent::NodeCompleted {
                node,
                outcome: NodeOutcome::Success { outputs: output.outputs },
            }),
            WorkerResult::Failed(e) => r == (ExecutionEvent::NodeFailed { node, error: e }),
            WorkerResult::TimedOut(e) => r is NodeFailed && r->NodeFailed_node == node && r->NodeFailed_error@
                == "Worker task error: "@ + e@,
        },
{
    match result {
        WorkerResult::Returned(output) => ExecutionEvent::NodeCompleted {
            node,
            outcome: NodeOutcome::Success { outputs: output.outputs },
        },
        WorkerResult::Failed(e) => ExecutionEvent::NodeFailed { node, error: e },
        WorkerResult::TimedOut(e) => ExecutionEvent::NodeFailed {
            node,
            error: cat2("Worker task error: ", e.as_str()),
        },
    }
}

/// The state of a run: which nodes have a worker and which have ended.
pub struct Coordinator {
    pub in_flight: StringSet,
    pub completed: StringSet,
}

/// The node that an event is about.
pub open spec fn event_node(e: ExecutionEvent) -> Seq<char> {
    match e {
        ExecutionEvent::NodeStarted { node } => node.node_id@,
        ExecutionEvent::NodeCompleted { node, outcome } => node.node_id@,
        ExecutionEvent::NodeFailed { node, error } => node.node_id@,
    }
}

impl Coordinator {
    /// No node that ended has a worker.
    pub open spec fn wf(&self) -> bool {
        forall|k: Seq<char>| #[trigger] self.in_flight@.contains(k) ==> !self.completed@.contains(k)
    }

    /// A run that has not started.
    pub fn new() -> (r: Self)
        ensures
            r.wf(),
            r.in_flight@ == Set::<Seq<char>>::empty(),
            r.completed@ == Set::<Seq<char>>::empty(),
    {
        Coordinator { in_flight: StringSet::new(), completed: StringSet::new() }
    }

    /// How many workers run at the same time: at least one.
    pub fn max_parallel(config: &DagConfig) -> (r: usize)
        ensures
            r == (if config.max_parallel_nodes == 0 {
                1
            } else {
                config.max_parallel_nodes
            }),
    {
        if config.max_parallel_nodes == 0 {
            1
        } else {
            config.max_parallel_nodes
        }
    }

    /// The nodes to start workers for now: those that can run and have none.
    pub fn to_schedule<A>(&self, exec: &DagExecutor<A>, dag_name: &str) -> (r: Result<Vec<String>, String>)
        requires
            exec.wf(),
        ensures
            r is Ok <==> exec.prebuilt_dags@.contains_key(dag_name@),
            r matches Ok(v) ==> {
                let dag = exec.prebuilt_dags@[dag_name@];
                let ready = runnable(dag, self.completed@, dag.indices.pairs().len() as int);
                views(v@) == ready.filter(|id: Seq<char>| !self.in_flight@.contains(id))
            },
            r matches Err(e) ==> e@ == "DAG not found: "@ + dag_name@,
    {
        let ready = match get_ready_nodes(exec, dag_name, &self.completed) {
            Ok(v) => v,
            Err(e) => {
                return Err(e);
            },
        };
        let ghost all = views(ready@);
        let ghost keep = |id: Seq<char>| !self.in_flight@.contains(id);
        let mut r: Vec<String> = Vec::new();
        let mut i: usize = 0;
        proof {
            assert(all.take(0) =~= Seq::<Seq<char>>::empty());
            reveal(Seq::filter);
            assert(views(r@) =~= all.take(0).filter(keep));
        }
        while i < ready.len()
            invariant
                i <= ready@.len(),
                all == views(ready@),
                keep == (|id: Seq<char>| !self.in_flight@.contains(id)),
                views(r@) == all.take(i as int).filter(keep),
            decreases ready.len() - i,
        {
            let ghost before = views(r@);
            proof {
                reveal(Seq::filter);
                assert(all.take(i + 1).drop_last() =~= all.take(i as int));
                assert(all.take(i + 1).last() == ready@[i as int]@);
            }
            if !self.in_flight.contains(ready[i].as_str()) {
                r.push(ready[i].clone());
                proof {
                    assert(views(r@) =~= before.push(ready@[i as int]@));
                }
            }
            i = i + 1;
        }
        proof {
            assert(all.take(i as int) =~= all);
        }
        Ok(r)
    }

    /// Starts a worker for a node that can run and has none, or says why that is not possible.
    pub fn launch<A>(&mut self, exec: &DagExecutor<A>, dag_name: &str, node_id: &str, cache: &Cache) -> (r: Result<
        Launch,
        String,
    >)
        requires
            old(self).wf(),
            exec.wf(),
            !old(self).completed@.contains(node_id@),
        ensures
            final(self).wf(),
            final(self).completed@ == old(self).completed@,
            r is Ok <==> launch_problem(*exec, dag_name@, node_id@) is None,
            r matches Ok(l) ==> launches(
                l,
                exec.prebuilt_dags@[dag_name@],
                dag_name@,
                node_id@,
                cache@,
                lookup(exec@.inputs, dag_name@, node_id@),
            ) && final(self).in_flight@ == old(self).in_flight@.insert(node_id@),
            r matches Err(e) ==> launch_problem(*exec, dag_name@, node_id@) == Some(e@) && final(self).in_flight@
                == old(self).in_flight@,
    {
        match prepare_worker(exec, dag_name, node_id, cache) {
            Ok(l) => {
                self.in_flight.insert(owned(node_id));
                Ok(l)
            },
            Err(e) => Err(e),
        }
    }

    /// Notes what a worker reports; returns whether more nodes may be able to run.
    pub fn note(&mut self, event: &ExecutionEvent) -> (r: bool)
        requires
            old(self).wf(),
        ensures
            final(self).wf(),
            r == (event is NodeCompleted),
            event is NodeStarted ==> *final(self) == *old(self),
            !(event is NodeStarted) ==> final(self).in_flight@ == old(self).in_flight@.remove(event_node(*event))
                && final(self).completed@ == old(self).completed@.insert(event_node(*event)),
    {
        match event {
            ExecutionEvent::NodeStarted { node: _ } => false,
            ExecutionEvent::NodeCompleted { node, outcome: _ } => {
                self.in_flight.remove(node.node_id.as_str());
                self.completed.insert(node.node_id.clone());
                true
            },
            ExecutionEvent::NodeFailed { node, error: _ } => {
                self.in_flight.remove(node.node_id.as_str());
                self.completed.insert(node.node_id.clone());
                false
            },
        }
    }

    /// Whether the run is over: no worker is left and every node has ended.
    pub fn is_over<A>(&self, exec: &DagExecutor<A>, dag_name: &str) -> (r: Result<bool, String>)
        requires
            exec.wf(),
        ensures
            r is Ok <==> exec.prebuilt_dags@.contains_key(dag_name@) || self.in_flight@ != Set::<Seq<char>>::empty(),
            r matches Ok(b) ==> b == (self.in_flight@ == Set::<Seq<char>>::empty() && all_completed(
                exec.prebuilt_dags@[dag_name@],
                self.completed@,
            )),
            r matches Err(e) ==> e@ == "DAG not found: "@ + dag_name@,
    {
        if !self.in_flight.is_empty() {
            return Ok(false);
        }
        is_complete(exec, dag_name, &self.completed)
    }
}

/// What a command changed besides the workflow.
#[derive(Debug)]
pub struct Applied {
    /// The nodes that were added.
    pub added: Vec<String>,
    /// The event for those who listen.
    pub event: Option<RuntimeEventEnvelope>,
}

/// Why a command is refused that is for another workflow.
pub open spec fn wrong_dag_text(named: Seq<char>, running: Seq<char>) -> Seq<char> {
    "Command for wrong DAG: "@ + named + " vs "@ + running
}

/// The workflow that a command is for, where it is for one.
pub open spec fn command_dag(cmd: ExecutorCommand) -> Option<Seq<char>> {
    match cmd {
        ExecutorCommand::AddNode { dag_name, spec } => Some(dag_name@),
        ExecutorCommand::AddNodes { dag_name, specs } => Some(dag_name@),
        ExecutorCommand::SetNodeInputs { dag_name, node_id, inputs } => Some(dag_name@),
        _ => None,
    }
}

/// The nodes that a command adds.
pub open spec fn command_specs(cmd: ExecutorCommand) -> Seq<crate::dag_flow::planning::SpecView> {
    match cmd {
        ExecutorCommand::AddNode { dag_name, spec } => seq![spec@],
        ExecutorCommand::AddNodes { dag_name, specs } => spec_views(specs@),
        _ => Seq::empty(),
    }
}

/// The branch that a command is for, with its state after the command at `now`.
pub open spec fn command_branch(cmd: ExecutorCommand, m: Map<Seq<char>, BranchState>, now: u64) -> Map<Seq<char>, BranchState> {
    match cmd {
        ExecutorCommand::PauseBranch { branch_id, reason } => with_branch(
            m,
            branch_id@,
            paused_state(m[branch_id@], reason, now),
        ),
        ExecutorCommand::ResumeBranch { branch_id } => with_branch(m, branch_id@, resumed_state(m[branch_id@], now)),
        ExecutorCommand::CancelBranch { branch_id } => with_branch(m, branch_id@, cancelled_state(m[branch_id@], None)),
        _ => m,
    }
}

/// Whether a command is for a branch.
pub open spec fn is_branch_command(cmd: ExecutorCommand) -> bool {
    cmd is PauseBranch || cmd is ResumeBranch || cmd is CancelBranch
}

/// What those who listen are told of a command for a branch: which branch it is, its status,
/// and the reason.
pub open spec fn command_news(cmd: ExecutorCommand) -> (Seq<char>, Seq<char>, Option<String>) {
    match cmd {
        ExecutorCommand::PauseBranch { branch_id, reason } => (branch_id@, "paused"@, reason),
        ExecutorCommand::ResumeBranch { branch_id } => (branch_id@, "running"@, None),
        ExecutorCommand::CancelBranch { branch_id } => (branch_id@, "cancelled"@, None),
        _ => (Seq::empty(), Seq::empty(), None),
    }
}

/// The executor after a command for the workflow `name`, with the nodes that were added, or
/// why the command is refused.
pub open spec fn command_applied<A>(s: ExecutorView<A>, name: Seq<char>, cmd: ExecutorCommand) -> Result<
    (ExecutorView<A>, Seq<Seq<char>>),
    Refusal,
> {
    match cmd {
        ExecutorCommand::SetNodeInputs { dag_name, node_id, inputs } => Ok(
            (inputs_set(s, name, node_id@, inputs@), Seq::empty()),
        ),
        _ => specs_added(s, name, command_specs(cmd)),
    }
}

/// Applies a command to a running workflow: nodes are added, all of them or, where one is
/// refused, none; the inputs of a node are set; branches are paused, resumed and cancelled. A
/// command for another workflow changes nothing. `sequence` is the number of the next event.
pub fn apply_command<A>(exec: &mut DagExecutor<A>, dag_name: &str, cmd: ExecutorCommand, sequence: &mut u64) -> (r: Result<
    Applied,
    String,
>)
    requires
        old(exec).wf(),
        has_room(old(exec)@, dag_name@, command_specs(cmd).len(), spec_dependencies(command_specs(cmd))),
    ensures
        final(exec).wf(),
        command_dag(cmd) matches Some(named) ==> *final(sequence) == *old(sequence) && if named != dag_name@ {
            r is Err && r->Err_0@ == wrong_dag_text(named, dag_name@) && *final(exec) == *old(exec)
        } else {
            match command_applied(old(exec)@, dag_name@, cmd) {
                Ok((after, ids)) => {
                    &&& r is Ok && views(r->Ok_0.added@) == ids && r->Ok_0.event is None
                    &&& final(exec)@ == after
                    &&& final(exec).same_flags(*old(exec))
                },
                Err(why) => {
                    &&& r is Err && exists|e: DagError| #[trigger] reports(e, why) && r->Err_0@ == e.text()
                    &&& *final(exec) == *old(exec)
                },
            }
        },
        command_dag(cmd) is None ==> r is Ok && r->Ok_0.added@.len() == 0 && final(exec).same_workflows(*old(exec)),
        is_branch_command(cmd) ==> (exists|now: u64|
            final(exec).branches@ == #[trigger] command_branch(cmd, old(exec).branches@, now)) && (exists|timestamp: u64|
            #[trigger]
            told(
                r->Ok_0.event,
                old(exec).has_event_sink,
                *old(sequence),
                *final(sequence),
                timestamp,
                command_news(cmd).0,
                command_news(cmd).1,
                command_news(cmd).2,
            )),
        cmd is EmitEvent ==> *final(exec) == *old(exec) && r->Ok_0.event is None && *final(sequence) == *old(sequence),
{
    match cmd {
        ExecutorCommand::AddNode { dag_name: named, spec } => {
            if !same(named.as_str(), dag_name) {
                return Err(cat4("Command for wrong DAG: ", named.as_str(), " vs ", dag_name));
            }
            let ghost view = spec@;
            let mut specs: Vec<NodeSpec> = Vec::new();
            specs.push(spec);
            proof {
                assert(spec_views(specs@) =~= seq![view]);
            }
            match exec.add_specs(dag_name, &specs) {
                Ok(added) => Ok(Applied { added, event: None }),
                Err(e) => Err(e.message()),
            }
        },
        ExecutorCommand::AddNodes { dag_name: named, specs } => {
            if !same(named.as_str(), dag_name) {
                return Err(cat4("Command for wrong DAG: ", named.as_str(), " vs ", dag_name));
            }
            match exec.add_specs(dag_name, &specs) {
                Ok(added) => Ok(Applied { added, event: None }),
                Err(e) => Err(e.message()),
            }
        },
        ExecutorCommand::SetNodeInputs { dag_name: named, node_id, inputs } => {
            if !same(named.as_str(), dag_name) {
                return Err(cat4("Command for wrong DAG: ", named.as_str(), " vs ", dag_name));
            }
            let added: Vec<String> = Vec::new();
            proof {
                assert(views(added@) =~= Seq::<Seq<char>>::empty());
            }
            match exec.set_node_inputs_json(dag_name, node_id.as_str(), inputs) {
                Ok(()) => Ok(Applied { added, event: None }),
                Err(e) => Err(e.message()),
            }
        },
        ExecutorCommand::PauseBranch { branch_id, reason } => {
            let event = exec.pause_branch(branch_id.as_str(), reason, sequence);
            proof {
                let now = choose|now: u64|
                    exec.branches@ == with_branch(
                        old(exec).branches@,
                        branch_id@,
                        #[trigger] paused_state(old(exec).branches@[branch_id@], reason, now),
                    );
                assert(exec.branches@ == command_branch(cmd, old(exec).branches@, now));
                let timestamp = choose|timestamp: u64| #[trigger]
                    told(
                        event,
                        old(exec).has_event_sink,
                        *old(sequence),
                        *sequence,
                        timestamp,
                        branch_id@,
                        "paused"@,
                        reason,
                    );
                assert(command_news(cmd) == (branch_id@, "paused"@, reason));
                assert(told(
                    event,
                    old(exec).has_event_sink,
                    *old(sequence),
                    *sequence,
                    timestamp,
                    command_news(cmd).0,
                    command_news(cmd).1,
                    command_news(cmd).2,
                ));
            }
            Ok(Applied { added: Vec::new(), event })
        },
        ExecutorCommand::ResumeBranch { branch_id } => {
            let event = exec.resume_branch(branch_id.as_str(), sequence);
            proof {
                let now = choose|now: u64|
                    exec.branches@ == with_branch(
                        old(exec).branches@,
                        branch_id@,
                        #[trigger] resumed_state(old(exec).branches@[branch_id@], now),
                    );
                assert(exec.branches@ == command_branch(cmd, old(exec).branches@, now));
                let timestamp = choose|timestamp: u64| #[trigger]
                    told(
                        event,
                        old(exec).has_event_sink,
                        *old(sequence),
                        *sequence,
                        timestamp,
                        branch_id@,
                        "running"@,
                        None::<String>,
                    );
                assert(command_news(cmd) == (branch_id@, "running"@, None::<String>));
                assert(told(
                    event,
                    old(exec).has_event_sink,
                    *old(sequence),
                    *sequence,
                    timestamp,
                    command_news(cmd).0,
                    command_news(cmd).1,
                    command_news(cmd).2,
                ));
            }
            Ok(Applied { added: Vec::new(), event })
        },
        ExecutorCommand::CancelBranch { branch_id } => {
            let event = exec.cancel_branch(branch_id.as_str(), None, sequence);
            proof {
                assert(exec.branches@ == command_branch(cmd, old(exec).branches@, 0));
                let timestamp = choose|timestamp: u64| #[trigger]
                    told(
                        event,
                        old(exec).has_event_sink,
                        *old(sequence),
                        *sequence,
                        timestamp,
                        branch_id@,
                        "cancelled"@,
                        None::<String>,
                    );
                assert(command_news(cmd) == (branch_id@, "cancelled"@, None::<String>));
                assert(told(
                    event,
                    old(exec).has_event_sink,
                    *old(sequence),
                    *sequence,
                    timestamp,
                    command_news(cmd).0,
                    command_news(cmd).1,
                    command_news(cmd).2,
                ));
            }
            Ok(Applied { added: Vec::new(), event })
        },
        ExecutorCommand::EmitEvent { event: _ } => Ok(Applied { added: Vec::new(), event: None }),
    }
}

/// A member of what was set for a node is what its worker is given.
pub proof fn set_member_is_given(resolved: Seq<(Seq<char>, Json)>, over: Seq<(Seq<char>, Json)>, k: int)
    requires
        0 <= k < over.len(),
        forall|i: int, j: int| 0 <= i < j < over.len() ==> (#[trigger] over[i]).0 != (#[trigger] over[j]).0,
    ensures
        member(given_inputs(resolved, Some(Json::Object(over))), over[k].0) == Some(over[k].1),
{
    lemma_overlaid(resolved, over, k, over.len() as int);
}

proof fn lemma_overlaid(resolved: Seq<(Seq<char>, Json)>, over: Seq<(Seq<char>, Json)>, k: int, n: int)
    requires
        0 <= k < n <= over.len(),
        forall|i: int, j: int| 0 <= i < j < over.len() ==> (#[trigger] over[i]).0 != (#[trigger] over[j]).0,
    ensures
        member(Json::Object(overlaid(resolved, over, n)), over[k].0) == Some(over[k].1),
    decreases n,
{
    set_member_is_found(overlaid(resolved, over, n - 1), over[n - 1].0, over[n - 1].1, over[k].0);
    if k < n - 1 {
        lemma_overlaid(resolved, over, k, n - 1);
    }
}

/// A node for which a worker is started has everything completed that it depends on, is not
/// completed itself, and has no worker.
pub proof fn scheduled_nodes_are_due(dag: Dag, in_flight: Set<Seq<char>>, completed: Set<Seq<char>>, k: int, d: int)
    requires
        dag.wf(),
        ({
            let due = runnable(dag, completed, dag.indices.pairs().len() as int).filter(
                |id: Seq<char>| !in_flight.contains(id),
            );
            0 <= k < due.len()
        }),
        dag.indices.wf(),
    ensures
        ({
            let id = runnable(dag, completed, dag.indices.pairs().len() as int).filter(
                |id: Seq<char>| !in_flight.contains(id),
            )[k];
            let node = dag.nodes@[dag.indices@[id] as int];
            &&& !in_flight.contains(id)
            &&& !completed.contains(id)
            &&& dag.indices@.contains_key(id)
            &&& 0 <= d < node.dependencies@.len() ==> completed.contains(node.dependencies@[d]@)
        }),
{
    let all = runnable(dag, completed, dag.indices.pairs().len() as int);
    let keep = |id: Seq<char>| !in_flight.contains(id);
    let id = all.filter(keep)[k];
    all.lemma_filter_contains_rev(keep, id);
    assert(keep(id)) by {
        all.lemma_filter_pred(keep, k);
    }
    lemma_runnable(dag, completed, dag.indices.pairs().len() as int, id);
    let position = dag.indices@[id] as int;
    let node = dag.nodes@[position];
    if 0 <= d < node.dependencies@.len() {
        lemma_edge_present(dag.indices@, dag.nodes@, position, d);
        let dep = node.dependencies@[d]@;
        let e = (dag.indices@[dep] as nat, dag.indices@[node.id@] as nat);
        assert(dag.graph.edges().contains(e));
        assert(crate::dag_flow::dag::dependencies_known(node, dag.indices@));
        assert(dag.indices@.contains_key(dep));
        assert(dag.nodes@[e.0 as int].id@ == dep);
    }
}

proof fn lemma_runnable(dag: Dag, completed: Set<Seq<char>>, n: int, id: Seq<char>)
    requires
        0 <= n <= dag.indices.pairs().len(),
        runnable(dag, completed, n).contains(id),
        dag.indices.wf(),
    ensures
        can_run(dag, id, completed),
        dag.indices@.contains_key(id),
    decreases n,
{
    if n > 0 {
        let before = runnable(dag, completed, n - 1);
        let last = dag.indices.pairs()[n - 1].0@;
        if before.contains(id) {
            lemma_runnable(dag, completed, n - 1, id);
        } else {
            let all = runnable(dag, completed, n);
            let k = choose|k: int| 0 <= k < all.len() && all[k] == id;
            if k < before.len() {
                assert(before[k] == id);
                assert(before.contains(id));
            }
            assert(id == last);
            crate::string_map::lemma_entry(dag.indices.pairs(), n - 1);
        }
    }
}

/// Where the dependencies of a workflow form no cycle and a node is not completed, some node
/// can run: a run does not get stuck.
pub proof fn acyclic_run_progresses(dag: Dag, completed: Set<Seq<char>>, id: Seq<char>)
    requires
        dag.wf(),
        dag.indices.wf(),
        !cyclic(dag.graph.edges()),
        dag.indices@.contains_key(id),
        !completed.contains(id),
    ensures
        runnable(dag, completed, dag.indices.pairs().len() as int).len() > 0,
{
    let pairs = dag.indices.pairs();
    let edges = dag.graph.edges();
    let nodes = dag.nodes@;
    if runnable(dag, completed, pairs.len() as int).len() == 0 {
        let w = Set::new(|n: nat| unfinished(dag, completed, n));
        assert(fed_from_within(edges, nodes.len(), w)) by {
            assert forall|n: nat| #[trigger] w.contains(n) implies n < nodes.len() && has_source_in(edges, w, n) by {
                let name = nodes[n as int].id@;
                let k = crate::string_map::key_index(pairs, name);
                assert(pairs[k].0@ == name);
                if can_run(dag, name, completed) {
                    lemma_runnable_grows(dag, completed, k + 1, pairs.len() as int);
                }
                let e = choose|e: (nat, nat)| #[trigger]
                    edges.contains(e) && e.1 == n && !completed.contains(nodes[e.0 as int].id@);
                let (a, d) = lemma_edge_origin(dag.indices@, nodes, e);
                let dep = nodes[a].dependencies@[d]@;
                assert(crate::dag_flow::dag::dependencies_known(nodes[a], dag.indices@));
                assert(dag.indices@.contains_key(dep));
                assert(w.contains(e.0));
                assert(edges.contains((e.0, n)));
            }
        }
        let start = dag.indices@[id] as nat;
        assert(w.contains(start));
        let path = lemma_fed_path(edges, nodes.len(), w, start, nodes.len());
        lemma_long_path_closes(edges, path, nodes.len());
    }
}

/// The node at `n` is the one its id stands for, and is not completed.
spec fn unfinished(dag: Dag, completed: Set<Seq<char>>, n: nat) -> bool {
    &&& n < dag.nodes@.len()
    &&& dag.indices@.contains_key(dag.nodes@[n as int].id@)
    &&& dag.indices@[dag.nodes@[n as int].id@] == n
    &&& !completed.contains(dag.nodes@[n as int].id@)
}

proof fn lemma_runnable_grows(dag: Dag, completed: Set<Seq<char>>, m: int, n: int)
    requires
        0 < m <= n,
        can_run(dag, dag.indices.pairs()[m - 1].0@, completed),
    ensures
        runnable(dag, completed, n).len() > 0,
    decreases n,
{
    if m < n {
        lemma_runnable_grows(dag, completed, m, n - 1);
    }
}

proof fn lemma_edge_origin(indices: Map<Seq<char>, usize>, nodes: Seq<Node>, e: (nat, nat)) -> (r: (int, int))
    requires
        all_edges(indices, nodes).contains(e),
    ensures
        0 <= r.0 < nodes.len(),
        0 <= r.1 < nodes[r.0].dependencies@.len(),
        e.0 == indices[nodes[r.0].dependencies@[r.1]@] as nat,
    decreases nodes.len(),
{
    let all = all_edges(indices, nodes);
    let k = choose|k: int| 0 <= k < all.len() && all[k] == e;
    let head = all_edges(indices, nodes.drop_last());
    if k < head.len() {
        assert(head[k] == e);
        let (a, d) = lemma_edge_origin(indices, nodes.drop_last(), e);
        assert(nodes.drop_last()[a] == nodes[a]);
        (a, d)
    } else {
        (nodes.len() - 1, k - head.len())
    }
}

/// Whether `v` is what `reference` names in `cache`: `inputs.` and a key name what is kept under
/// `inputs`, a node and a key with one dot between them what the node keeps, and anything else
/// names nothing. What is not there is null.
pub open spec fn names(cache: Map<Seq<char>, Map<Seq<char>, Json>>, reference: Seq<char>, v: Json) -> bool {
    &&& forall|key: Seq<char>|
        reference == #[trigger] ("inputs."@ + key) ==> v == (if cache.contains_key("inputs"@) && cache["inputs"@].contains_key(
            key,
        ) {
            cache["inputs"@][key]
        } else {
            Json::Null
        })
    &&& forall|node: Seq<char>, key: Seq<char>|
        reference == #[trigger] (node + seq!['.'] + key) && node != "inputs"@ && !node.contains('.') && !key.contains('.')
            ==> v == (if cache.contains_key(node) && cache[node].contains_key(key) {
            cache[node][key]
        } else {
            Json::Null
        })
    &&& !reference.contains('.') ==> v is Null
    &&& forall|a: Seq<char>, b: Seq<char>, c: Seq<char>|
        reference == #[trigger] (a + seq!['.'] + b + seq!['.'] + c) && !a.contains('.') && a != "inputs"@ ==> v is Null
}

proof fn lemma_dotted(a: Seq<char>, rest: Seq<char>)
    requires
        !a.contains('.'),
        a != "inputs"@,
    ensures
        !begins_with(a + seq!['.'] + rest, "inputs."@),
{
    reveal_strlit("inputs.");
    reveal_strlit("inputs");
    let s = a + seq!['.'] + rest;
    let p = "inputs."@;
    if begins_with(s, p) {
        assert(forall|i: int| 0 <= i < 7 ==> s.take(7)[i] == #[trigger] s[i]);
        assert(s[6] == '.');
        assert(forall|i: int| 0 <= i < 6 ==> s[i] != '.') by {
            assert(forall|i: int| 0 <= i < 6 ==> #[trigger] p[i] != '.');
        }
        assert(s[a.len() as int] == '.');
        if a.len() < 6 {
            assert(false);
        } else if a.len() > 6 {
            assert(a[6] == s[6]);
            assert(a.contains('.'));
        } else {
            assert(a =~= "inputs"@) by {
                assert forall|i: int| 0 <= i < 6 implies a[i] == "inputs"@[i] by {
                    assert(a[i] == s[i]);
                    assert(s[i] == p[i]);
                }
            }
        }
    }
}

/// What a worker reads for a reference is what the reference names in the cache.
pub proof fn reference_is_read(cache: &Cache, reference: &str, r: Value)
    requires
        call_ensures(resolve_input, (cache, reference), r),
    ensures
        names(cache@, reference@, r@),
{
    lemma_worker_input(cache@, reference@);
}

proof fn lemma_worker_input(cache: Map<Seq<char>, Map<Seq<char>, Json>>, reference: Seq<char>)
    ensures
        names(cache, reference, worker_input(cache, reference)),
{
    let v = worker_input(cache, reference);
    reveal_strlit("inputs.");
    reveal_strlit("inputs");
    assert forall|key: Seq<char>| reference == #[trigger] ("inputs."@ + key) implies v == (if cache.contains_key("inputs"@)
        && cache["inputs"@].contains_key(key) {
        cache["inputs"@][key]
    } else {
        Json::Null
    }) by {
        assert(reference.take(7) =~= "inputs."@);
        assert(reference.skip(7) =~= key);
    }
    assert forall|node: Seq<char>, key: Seq<char>|
        reference == #[trigger] (node + seq!['.'] + key) && node != "inputs"@ && !node.contains('.') && !key.contains(
            '.',
        ) implies v == (if cache.contains_key(node) && cache[node].contains_key(key) {
        cache[node][key]
    } else {
        Json::Null
    }) by {
        lemma_dotted(node, key);
        separator_parts_the_pieces(node, key, '.');
        plain_text_is_one_piece(node, '.');
        plain_text_is_one_piece(key, '.');
        assert(pieces(reference, '.') =~= seq![node, key]);
    }
    if !reference.contains('.') {
        plain_text_is_one_piece(reference, '.');
        if begins_with(reference, "inputs."@) {
            assert(reference.take(7)[6] == reference[6]);
            assert(reference[6] == '.');
        }
    }
    assert forall|a: Seq<char>, b: Seq<char>, c: Seq<char>|
        reference == #[trigger] (a + seq!['.'] + b + seq!['.'] + c) && !a.contains('.') && a != "inputs"@ implies v is Null by {
        let rest = b + seq!['.'] + c;
        assert(reference =~= a + seq!['.'] + rest);
        lemma_dotted(a, rest);
        separator_parts_the_pieces(a, rest, '.');
        separator_parts_the_pieces(b, c, '.');
        lemma_pieces_nonempty(a, '.');
        lemma_pieces_nonempty(b, '.');
        lemma_pieces_nonempty(c, '.');
    }
}

/// No later field has the name of the field at `i`.
pub open spec fn last_of_its_name(fields: Seq<IField>, i: int) -> bool {
    forall|j: int| i < j < fields.len() ==> (#[trigger] fields[j]).name@ != fields[i].name@
}

/// Whether the members of `v` are one for each name of `fields`, with what the last field of
/// that name names in the cache.
pub open spec fn holds_each_field(v: Json, cache: Map<Seq<char>, Map<Seq<char>, Json>>, fields: Seq<IField>) -> bool {
    &&& v is Object
    &&& forall|i: int|
        0 <= i < fields.len() && last_of_its_name(fields, i) ==> exists|k: int|
            0 <= k < v->Object_0.len() && (#[trigger] v->Object_0[k]).0 == (#[trigger] fields[i]).name@ && names(
                cache,
                fields[i].reference@,
                v->Object_0[k].1,
            )
    &&& forall|k: int|
        0 <= k < v->Object_0.len() ==> exists|i: int|
            0 <= i < fields.len() && (#[trigger] fields[i]).name@ == (#[trigger] v->Object_0[k]).0
    &&& forall|j: int, k: int|
        0 <= j < k < v->Object_0.len() ==> (#[trigger] v->Object_0[j]).0 != (#[trigger] v->Object_0[k]).0
}

/// A worker is given a member for each input of its node, with what the input's reference names
/// in the cache, and no other members.
pub proof fn each_input_is_resolved(cache: &Cache, fields: &Vec<IField>, r: Value)
    requires
        call_ensures(resolve_inputs, (cache, fields), r),
    ensures
        holds_each_field(r@, cache@, fields@),
{
    lemma_each_field(cache@, fields@, fields@.len() as int);
    assert(fields@.take(fields@.len() as int) =~= fields@);
}

proof fn lemma_each_field(cache: Map<Seq<char>, Map<Seq<char>, Json>>, fields: Seq<IField>, n: int)
    requires
        0 <= n <= fields.len(),
    ensures
        holds_each_field(Json::Object(worker_inputs(cache, fields, n)), cache, fields.take(n)),
    decreases n,
{
    let some = fields.take(n);
    let after = worker_inputs(cache, fields, n);
    assert(Json::Object(after)->Object_0 == after);
    if n > 0 {
        lemma_each_field(cache, fields, n - 1);
        let before = worker_inputs(cache, fields, n - 1);
        let fewer = fields.take(n - 1);
        assert(Json::Object(before)->Object_0 == before);
        let name = fields[n - 1].name@;
        let value = worker_input(cache, fields[n - 1].reference@);
        lemma_worker_input(cache, fields[n - 1].reference@);
        let there = exists|k: int| member_at(before, name, k);
        let at = if there {
            choose|k: int| member_at(before, name, k)
        } else {
            before.len() as int
        };
        assert(after[at] == (name, value));
        assert(forall|k: int| 0 <= k < before.len() && k != at ==> after[k] == #[trigger] before[k]);
        assert forall|k: int| 0 <= k < before.len() && (#[trigger] before[k]).0 == name implies k == at by {
            lemma_some_member(before, name, k);
            assert(member_at(before, name, at));
            if k < at {
                assert(before[k].0 != name);
            } else if at < k {
                assert(before[at].0 != before[k].0);
            }
        }
        assert forall|i: int| 0 <= i < some.len() && last_of_its_name(some, i) implies exists|k: int|
            0 <= k < after.len() && (#[trigger] after[k]).0 == (#[trigger] some[i]).name@ && names(
                cache,
                some[i].reference@,
                after[k].1,
            ) by {
            if i == n - 1 {
                assert(after[at].0 == some[i].name@);
            } else {
                assert(some[n - 1].name@ != some[i].name@);
                assert(some[i] == fewer[i]);
                assert(last_of_its_name(fewer, i)) by {
                    assert forall|j: int| i < j < fewer.len() implies (#[trigger] fewer[j]).name@ != fewer[i].name@ by {
                        assert(some[j] == fewer[j]);
                    }
                }
                let k = choose|k: int|
                    0 <= k < before.len() && (#[trigger] before[k]).0 == fewer[i].name@ && names(
                        cache,
                        fewer[i].reference@,
                        before[k].1,
                    );
                assert(k != at);
                assert(after[k] == before[k]);
            }
        }
        assert forall|k: int| 0 <= k < after.len() implies exists|i: int|
            0 <= i < some.len() && (#[trigger] some[i]).name@ == (#[trigger] after[k]).0 by {
            if k == at {
                assert(some[n - 1].name@ == after[k].0);
            } else {
                let i = choose|i: int| 0 <= i < fewer.len() && (#[trigger] fewer[i]).name@ == before[k].0;
                assert(some[i] == fewer[i]);
            }
        }
        assert forall|j: int, k: int| 0 <= j < k < after.len() implies (#[trigger] after[j]).0 != (#[trigger] after[k]).0 by {
            if j != at && k != at {
                assert(before[j].0 != before[k].0);
            } else if j == at {
                assert(after[k] == before[k]);
                assert(before[k].0 != name);
            } else {
                assert(after[j] == before[j]);
                assert(before[j].0 != name);
            }
        }
    }
}

/// A worker can be started exactly for a node of a loaded workflow whose action is registered.
/// It is given the node's action and time and, where nothing was set for the node, a member for
/// each of the node's inputs; what was set, where it is no object, goes in their place.
pub proof fn worker_gets_its_node<A>(exec: &DagExecutor<A>, dag_name: &str, node_id: &str, cache: &Cache, r: Result<Launch, String>)
    requires
        call_ensures(prepare_worker::<A>, (exec, dag_name, node_id, cache), r),
    ensures
        r is Ok <==> exec.prebuilt_dags@.contains_key(dag_name@) && exec.prebuilt_dags@[dag_name@].indices@.contains_key(
            node_id@,
        ) && exec.function_registry@.contains_key(
            exec.prebuilt_dags@[dag_name@].nodes@[exec.prebuilt_dags@[dag_name@].indices@[node_id@] as int].action@,
        ),
        r matches Ok(l) ==> {
            let dag = exec.prebuilt_dags@[dag_name@];
            let node = dag.nodes@[dag.indices@[node_id@] as int];
            let set = exec.node_inputs@;
            &&& l.node.dag_name@ == dag_name@ && l.node.node_id@ == node_id@
            &&& l.action@ == node.action@
            &&& l.timeout == node.timeout
            &&& !(set.contains_key(dag_name@) && set[dag_name@].contains_key(node_id@)) ==> holds_each_field(
                l.inputs@,
                cache@,
                node.inputs@,
            )
            &&& set.contains_key(dag_name@) && set[dag_name@].contains_key(node_id@) && !(set[dag_name@][node_id@] is Object)
                ==> l.inputs@ == set[dag_name@][node_id@]
        },
{
    if r is Ok {
        let dag = exec.prebuilt_dags@[dag_name@];
        let node = dag.nodes@[dag.indices@[node_id@] as int];
        lemma_each_field(cache@, node.inputs@, node.inputs@.len() as int);
        assert(node.inputs@.take(node.inputs@.len() as int) =~= node.inputs@);
    }
}

/// Workers are started for exactly those nodes that have not ended, have no worker, and have
/// all ended that an edge leads from.
pub proof fn what_is_due_is_scheduled<A>(
    c: &Coordinator,
    exec: &DagExecutor<A>,
    dag_name: &str,
    r: Result<Vec<String>, String>,
    id: Seq<char>,
)
    requires
        call_ensures(Coordinator::to_schedule::<A>, (c, exec, dag_name), r),
    ensures
        r is Ok <==> exec.prebuilt_dags@.contains_key(dag_name@),
        r matches Ok(list) ==> {
            let dag = exec.prebuilt_dags@[dag_name@];
            (exists|k: int| 0 <= k < list@.len() && (#[trigger] list@[k])@ == id) <==> dag.indices@.contains_key(id)
                && !c.completed@.contains(id) && !c.in_flight@.contains(id) && forall|e: (nat, nat)|
                #![trigger dag.graph.edges().contains(e)]
                dag.graph.edges().contains(e) && e.1 == dag.indices@[id] as nat ==> c.completed@.contains(
                    dag.nodes@[e.0 as int].id@,
                )
        },
{
    if let Ok(list) = r {
        let dag = exec.prebuilt_dags@[dag_name@];
        let pairs = dag.indices.pairs();
        let ready = runnable(dag, c.completed@, pairs.len() as int);
        let keep = |id: Seq<char>| !c.in_flight@.contains(id);
        let due = ready.filter(keep);
        assert(views(list@) == due);
        lemma_runnable_exact(dag, c.completed@, pairs.len() as int, id);
        if exists|k: int| 0 <= k < list@.len() && (#[trigger] list@[k])@ == id {
            let k = choose|k: int| 0 <= k < list@.len() && (#[trigger] list@[k])@ == id;
            assert(due[k] == id);
            ready.lemma_filter_pred(keep, k);
            ready.lemma_filter_contains_rev(keep, id);
        }
        if ready.contains(id) && keep(id) {
            let i = ready.index_of(id);
            ready.lemma_filter_contains(keep, i);
            let k = due.index_of(id);
            assert(list@[k]@ == due[k]);
        }
        assert(waits_over(dag, id, c.completed@) <==> forall|e: (nat, nat)|
            #![trigger dag.graph.edges().contains(e)]
            dag.graph.edges().contains(e) && e.1 == dag.indices@[id] as nat ==> c.completed@.contains(
                dag.nodes@[e.0 as int].id@,
            ));
    }
}

proof fn lemma_runnable_exact(dag: Dag, completed: Set<Seq<char>>, n: int, id: Seq<char>)
    requires
        0 <= n <= dag.indices.pairs().len(),
    ensures
        runnable(dag, completed, n).contains(id) <==> can_run(dag, id, completed) && exists|j: int|
            0 <= j < n && (#[trigger] dag.indices.pairs()[j]).0@ == id,
    decreases n,
{
    if n > 0 {
        lemma_runnable_exact(dag, completed, n - 1, id);
        let before = runnable(dag, completed, n - 1);
        let all = runnable(dag, completed, n);
        let last = dag.indices.pairs()[n - 1].0@;
        if all.contains(id) {
            let k = all.index_of(id);
            if k < before.len() {
                assert(before[k] == id);
            } else {
                assert(last == id);
            }
        }
        if before.contains(id) {
            let k = before.index_of(id);
            assert(all[k] == id);
        }
        if can_run(dag, id, completed) && last == id {
            assert(all[before.len() as int] == id);
        }
    }
}

/// A run is over exactly where no worker is left and every node has ended.
pub proof fn run_is_over_when_all_ended<A>(c: &Coordinator, exec: &DagExecutor<A>, name: &str, r: Result<bool, String>)
    requires
        call_ensures(Coordinator::is_over::<A>, (c, exec, name), r),
        exec.prebuilt_dags@.contains_key(name@),
    ensures
        r == Ok::<bool, String>(true) <==> (forall|k: Seq<char>| !(#[trigger] c.in_flight@.contains(k))) && forall|k: Seq<char>|
            #[trigger] exec.prebuilt_dags@[name@].indices@.contains_key(k) ==> c.completed@.contains(k),
        r is Ok,
{
    if forall|k: Seq<char>| !(#[trigger] c.in_flight@.contains(k)) {
        assert(c.in_flight@ =~= Set::<Seq<char>>::empty());
    }
}

/// Whether all nodes have ended is asked of the nodes that the workflow has.
pub proof fn complete_when_all_ended<A>(exec: &DagExecutor<A>, name: &str, completed: &StringSet, r: Result<bool, String>)
    requires
        call_ensures(is_complete::<A>, (exec, name, completed), r),
    ensures
        r is Ok <==> exec.prebuilt_dags@.contains_key(name@),
        r == Ok::<bool, String>(true) <==> exec.prebuilt_dags@.contains_key(name@) && forall|k: Seq<char>| #[trigger]
            exec.prebuilt_dags@[name@].indices@.contains_key(k) ==> completed@.contains(k),
        r matches Err(e) ==> e@ == "DAG not found: "@ + name@,
{
}

/// A node whose worker ended, well or not, has ended and has no worker; a start changes nothing.
/// Only after an end that went well is it worth looking for more to run.
pub proof fn ended_node_has_no_worker(c: &mut Coordinator, event: &ExecutionEvent, r: bool)
    requires
        call_ensures(Coordinator::note, (c, event), r),
    ensures
        *event matches ExecutionEvent::NodeCompleted { node, outcome } ==> r && final(c).completed@.contains(node.node_id@)
            && !final(c).in_flight@.contains(node.node_id@),
        *event matches ExecutionEvent::NodeFailed { node, error } ==> !r && final(c).completed@.contains(node.node_id@) && !final(c).in_flight@.contains(node.node_id@),
        *event matches ExecutionEvent::NodeStarted { node } ==> !r && final(c).completed@ == old(c).completed@ && final(c).in_flight@ == old(c).in_flight@,
        forall|k: Seq<char>|
            (*event matches ExecutionEvent::NodeCompleted { node, outcome } ==> node.node_id@ != k) && (
            *event matches ExecutionEvent::NodeFailed { node, error } ==> node.node_id@ != k) ==> (#[trigger] final(c).completed@.contains(k) <==> old(c).completed@.contains(k)) && (final(c).in_flight@.contains(k) <==> old(c).in_flight@.contains(k)),
{
}

/// A node for which a worker is started has one from then on; one for which none can be started
/// does not.
pub proof fn launched_node_has_a_worker<A>(
    c: &mut Coordinator,
    exec: &DagExecutor<A>,
    name: &str,
    id: &str,
    cache: &Cache,
    r: Result<Launch, String>,
)
    requires
        call_ensures(Coordinator::launch::<A>, (c, exec, name, id, cache), r),
    ensures
        r is Ok <==> exec.prebuilt_dags@.contains_key(name@) && exec.prebuilt_dags@[name@].indices@.contains_key(id@)
            && exec.function_registry@.contains_key(
            exec.prebuilt_dags@[name@].nodes@[exec.prebuilt_dags@[name@].indices@[id@] as int].action@,
        ),
        r is Ok ==> final(c).in_flight@.contains(id@),
        r is Err ==> final(c).in_flight@ == old(c).in_flight@,
        final(c).completed@ == old(c).completed@,
        forall|k: Seq<char>| k != id@ ==> (#[trigger] final(c).in_flight@.contains(k) <==> old(c).in_flight@.contains(k)),
        r matches Ok(l) ==> l.node.node_id@ == id@ && l.node.dag_name@ == name@,
        !exec.prebuilt_dags@.contains_key(name@) ==> (r matches Err(e) && e@ == "DAG not found: "@ + name@),
        exec.prebuilt_dags@.contains_key(name@) && !exec.prebuilt_dags@[name@].indices@.contains_key(id@) ==> (r matches Err(e)
            && e@ == "Node not found: "@ + id@),
{
}

/// A command for another workflow is refused and changes nothing; one that adds nodes adds them
/// all or none; one that sets inputs sets them for its node.
pub proof fn commands_are_carried_out<A>(
    exec: &mut DagExecutor<A>,
    name: &str,
    cmd: ExecutorCommand,
    sequence: &mut u64,
    r: Result<Applied, String>,
)
    requires
        call_ensures(apply_command::<A>, (exec, name, cmd, sequence), r),
    ensures
        cmd matches ExecutorCommand::AddNodes { dag_name, specs } ==> {
            &&& dag_name@ != name@ ==> r is Err && *final(exec) == *old(exec) && r->Err_0@ == "Command for wrong DAG: "@ + dag_name@
                + " vs "@ + name@
            &&& r is Err ==> *final(exec) == *old(exec)
            &&& r is Ok ==> crate::dag_flow::executor::each_is_added(
                old(exec)@,
                final(exec)@,
                name@,
                spec_views(specs@),
                views(r->Ok_0.added@),
            )
        },
        cmd matches ExecutorCommand::AddNode { dag_name, spec } ==> {
            &&& dag_name@ != name@ ==> r is Err && *final(exec) == *old(exec)
            &&& r is Err ==> *final(exec) == *old(exec)
            &&& r is Ok ==> crate::dag_flow::executor::each_is_added(
                old(exec)@,
                final(exec)@,
                name@,
                seq![spec@],
                views(r->Ok_0.added@),
            )
        },
        cmd matches ExecutorCommand::SetNodeInputs { dag_name, node_id, inputs } ==> {
            &&& dag_name@ != name@ ==> r is Err && *final(exec) == *old(exec)
            &&& dag_name@ == name@ ==> r is Ok && final(exec)@.inputs.contains_key(name@) && final(exec)@.inputs[name@].contains_key(node_id@) && final(exec)@.inputs[name@][node_id@] == inputs@ && final(exec)@.dags == old(exec)@.dags
        },
        cmd matches ExecutorCommand::PauseBranch { branch_id, reason } ==> r is Ok && (old(exec).branches@.contains_key(branch_id@)
            ==> final(exec).branches@[branch_id@].status is Paused && final(exec).branches@[branch_id@].reason == reason),
        cmd matches ExecutorCommand::ResumeBranch { branch_id } ==> r is Ok && (old(exec).branches@.contains_key(branch_id@)
            && old(exec).branches@[branch_id@].status is Paused ==> final(exec).branches@[branch_id@].status is Running),
        cmd matches ExecutorCommand::CancelBranch { branch_id } ==> r is Ok && (old(exec).branches@.contains_key(branch_id@)
            ==> final(exec).branches@[branch_id@].status is Cancelled),
{
    match cmd {
        ExecutorCommand::AddNodes { dag_name, specs } => {
            if specs_added(old(exec)@, name@, spec_views(specs@)) is Ok {
                crate::dag_flow::executor::lemma_each_is_added(old(exec)@, name@, spec_views(specs@));
            }
        },
        ExecutorCommand::AddNode { dag_name, spec } => {
            if specs_added(old(exec)@, name@, seq![spec@]) is Ok {
                crate::dag_flow::executor::lemma_each_is_added(old(exec)@, name@, seq![spec@]);
            }
        },
        ExecutorCommand::SetNodeInputs { dag_name, node_id, inputs } => {},
        _ => {},
    }
}

/// At least one worker runs at a time, and else as many as the settings say.
pub proof fn some_worker_runs(config: &DagConfig, r: usize)
    requires
        call_ensures(Coordinator::max_parallel, (config,), r),
    ensures
        r >= 1,
        config.max_parallel_nodes >= 1 ==> r == config.max_parallel_nodes,
{
}

/// A node is ready exactly where it has not run and everything that it depends on has.
pub proof fn ready_nodes_wait_for_nothing<A>(
    exec: &DagExecutor<A>,
    dag_name: &str,
    completed: &StringSet,
    r: Result<Vec<String>, String>,
    id: Seq<char>,
)
    requires
        call_ensures(get_ready_nodes::<A>, (exec, dag_name, completed), r),
    ensures
        r is Ok <==> exec.prebuilt_dags@.contains_key(dag_name@),
        r matches Err(e) ==> e@ == "DAG not found: "@ + dag_name@,
        r matches Ok(list) ==> {
            let dag = exec.prebuilt_dags@[dag_name@];
            (exists|k: int| 0 <= k < list@.len() && (#[trigger] list@[k])@ == id) <==> dag.indices@.contains_key(id)
                && !completed@.contains(id) && forall|e: (nat, nat)|
                #![trigger dag.graph.edges().contains(e)]
                dag.graph.edges().contains(e) && e.1 == dag.indices@[id] as nat ==> completed@.contains(dag.nodes@[e.0 as int].id@)
        },
{
    if let Ok(list) = r {
        let dag = exec.prebuilt_dags@[dag_name@];
        let pairs = dag.indices.pairs();
        let ready = runnable(dag, completed@, pairs.len() as int);
        lemma_runnable_exact(dag, completed@, pairs.len() as int, id);
        if exists|k: int| 0 <= k < list@.len() && (#[trigger] list@[k])@ == id {
            let k = choose|k: int| 0 <= k < list@.len() && (#[trigger] list@[k])@ == id;
            assert(views(list@)[k] == id);
            assert(ready[k] == id);
        }
        if ready.contains(id) {
            let k = ready.index_of(id);
            assert(views(list@)[k] == id);
            assert(list@[k]@ == id);
        }
    }
}

/// What a worker returned completes its node; an error or a worker that broke off fails it, and
/// says why.
pub proof fn workers_results_are_told(node: NodeRef, result: WorkerResult, r: ExecutionEvent)
    requires
        call_ensures(worker_event, (node, result), r),
    ensures
        result matches WorkerResult::Returned(o) ==> (r matches ExecutionEvent::NodeCompleted { node: n, outcome } && n == node && (
        outcome matches NodeOutcome::Success { outputs } && outputs == o.outputs)),
        result matches WorkerResult::Failed(e) ==> (r matches ExecutionEvent::NodeFailed { node: n, error } && n == node && error
            == e),
        result matches WorkerResult::TimedOut(e) ==> (r matches ExecutionEvent::NodeFailed { node: n, error } && n == node && error@
            == "Worker task error: "@ + e@),
{
}

} // verus!
