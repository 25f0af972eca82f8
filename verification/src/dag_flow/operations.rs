//! Loading, growing, listing and starting workflows.

use super::branch::{cancelled_state, paused_state, resumed_state, with_branch};
use super::config::{config_problem, overridden, DagConfig};
use super::dag::{
    all_actions_known, all_dependencies_known, all_edges, build_dag_internal, definition_problem, dependency_count,
    has_node, last_position, lemma_no_edges_acyclic, located,
};
use super::events::{branch_event, following, next_sequence, now_ms, RuntimeEventEnvelope, ENVELOPE_VERSION};
use super::executor::{
    defined, dep_edges, first_unregistered, has_room, inputs_set, made_up, make_id, make_node, node_added, placed, reports,
    set_inputs, spec_added, spec_dependencies, spec_id, spec_node, specs_added, DagExecutor, DagView, Draft, ExecutorView,
    GraphView, Refusal,
};
use super::node::{node_views, DagError, Graph, Node, NodeView};
use super::planning::{spec_views, NodeSpec, SpecView};
use super::schedule::by_level;
use crate::graph::{cyclic, lemma_sink_keeps_acyclic, MAX_ELEMENTS};
use crate::text::{cat2, cat3, clone_opt, contains, contains_text, holds_text, occurs, owned, same, views};
use crate::value::{object, Json, Value};
use vstd::prelude::*;

verus! {

/// What came of loading a definition, as far as it says: the configuration is merged over
/// that of the executor.
pub open spec fn merged_graph(config: DagConfig, g: Graph) -> Graph {
    Graph {
        config: match g.config {
            Some(c) => Some(overridden(config, c)),
            None => None,
        },
        ..g
    }
}

/// The first position whose action is not registered.
fn find_unregistered<A>(exec: &DagExecutor<A>, specs: &Vec<NodeSpec>) -> (r: Option<usize>)
    ensures
        r is Some <==> first_unregistered(spec_views(specs@), exec.function_registry@) is Some,
        r matches Some(i) ==> i < specs@.len() && first_unregistered(spec_views(specs@), exec.function_registry@) == Some(
            specs@[i as int].action@,
        ),
{
    let ghost all = spec_views(specs@);
    let ghost actions = exec.function_registry@;
    let mut j: usize = 0;
    proof {
        assert(all.take(0) =~= Seq::<SpecView>::empty());
    }
    while j < specs.len()
        invariant
            j <= specs.len(),
            all == spec_views(specs@),
            actions == exec.function_registry@,
            first_unregistered(all.take(j as int), actions) is None,
        decreases specs.len() - j,
    {
        proof {
            assert(all.take(j + 1).drop_last() =~= all.take(j as int));
            assert(all.take(j + 1).last() == specs@[j as int]@);
        }
        if !exec.function_registry.contains(specs[j].action.as_str()) {
            proof {
                lemma_first_unregistered(all, actions, j + 1);
            }
            return Some(j);
        }
        j = j + 1;
    }
    proof {
        assert(all.take(j as int) =~= all);
    }
    None
}

proof fn lemma_first_unregistered<A>(specs: Seq<SpecView>, actions: Map<Seq<char>, A>, i: int)
    requires
        0 <= i <= specs.len(),
        first_unregistered(specs.take(i), actions) is Some,
    ensures
        first_unregistered(specs, actions) == first_unregistered(specs.take(i), actions),
    decreases specs.len() - i,
{
    if i < specs.len() {
        assert(specs.take(i + 1).drop_last() =~= specs.take(i));
        lemma_first_unregistered(specs, actions, i + 1);
    } else {
        assert(specs.take(i) =~= specs);
    }
}

/// Adding nodes uses up no more room than they need.
proof fn lemma_room<A>(s: ExecutorView<A>, name: Seq<char>, specs: Seq<SpecView>, i: int)
    requires
        0 <= i <= specs.len(),
        has_room(s, name, specs.len(), spec_dependencies(specs)),
        specs_added(s, name, specs.take(i)) is Ok,
    ensures
        has_room(
            specs_added(s, name, specs.take(i))->Ok_0.0,
            name,
            (specs.len() - i) as nat,
            (spec_dependencies(specs) - spec_dependencies(specs.take(i))) as nat,
        ),
        spec_dependencies(specs.take(i)) <= spec_dependencies(specs),
        i < specs.len() ==> spec_dependencies(specs.take(i)) + specs[i].deps.len() <= spec_dependencies(specs),
        specs_added(s, name, specs.take(i))->Ok_0.0.dags.contains_key(name) <==> s.dags.contains_key(name),
    decreases i,
{
    lemma_dependencies_take(specs, i);
    if i == 0 {
        assert(specs.take(0) =~= Seq::<SpecView>::empty());
    } else {
        assert(specs.take(i).drop_last() =~= specs.take(i - 1));
        assert(specs.take(i).last() == specs[i - 1]);
        lemma_room(s, name, specs, i - 1);
    }
    if i < specs.len() {
        lemma_dependencies_take(specs, i + 1);
        assert(specs.take(i + 1).drop_last() =~= specs.take(i));
    }
}

proof fn lemma_dependencies_take(specs: Seq<SpecView>, i: int)
    requires
        0 <= i <= specs.len(),
    ensures
        spec_dependencies(specs.take(i)) <= spec_dependencies(specs),
    decreases specs.len() - i,
{
    if i < specs.len() {
        assert(specs.take(i + 1).drop_last() =~= specs.take(i));
        lemma_dependencies_take(specs, i + 1);
    } else {
        assert(specs.take(i) =~= specs);
    }
}

/// Once a node is refused, the nodes are.
proof fn lemma_refused<A>(s: ExecutorView<A>, name: Seq<char>, specs: Seq<SpecView>, i: int)
    requires
        0 <= i <= specs.len(),
        specs_added(s, name, specs.take(i)) is Err,
    ensures
        specs_added(s, name, specs) == specs_added(s, name, specs.take(i)),
    decreases specs.len() - i,
{
    if i < specs.len() {
        assert(specs.take(i + 1).drop_last() =~= specs.take(i));
        lemma_refused(s, name, specs, i + 1);
    } else {
        assert(specs.take(i) =~= specs);
    }
}

/// The executor after the first `i` nodes of `specs` were added.
spec fn step<A>(s: ExecutorView<A>, name: Seq<char>, specs: Seq<SpecView>, i: int) -> ExecutorView<A> {
    specs_added(s, name, specs.take(i))->Ok_0.0
}

/// Whether the node at `i` of `specs` gets the id `id`.
spec fn settled<A>(s: ExecutorView<A>, name: Seq<char>, specs: Seq<SpecView>, i: int, id: Seq<char>) -> bool {
    specs_added(s, name, specs.take(i)) is Ok && id == spec_id(step(s, name, specs, i), specs[i])
}

/// What one more node adds to the executor.
proof fn lemma_step<A>(s: ExecutorView<A>, name: Seq<char>, specs: Seq<SpecView>, i: int)
    requires
        0 <= i < specs.len(),
        specs_added(s, name, specs.take(i)) is Ok,
    ensures
        specs_added(s, name, specs.take(i + 1)) == (match spec_added(step(s, name, specs, i), name, specs[i]) {
            Ok(after) => Ok::<(ExecutorView<A>, Seq<Seq<char>>), Refusal>(
                (
                    after,
                    specs_added(s, name, specs.take(i))->Ok_0.1.push(spec_id(step(s, name, specs, i), specs[i])),
                ),
            ),
            Err(why) => Err(why),
        }),
{
    assert(specs.take(i + 1).drop_last() =~= specs.take(i));
    assert(specs.take(i + 1).last() == specs[i]);
}

impl<A> DagExecutor<A> {
    /// Adds nodes to a workflow, all or none: where an action is not registered or a node is
    /// refused, nothing is added.
    pub fn add_nodes_atomic(&mut self, dag_name: &str, specs: &Vec<NodeSpec>) -> (r: Result<Vec<String>, DagError>)
        requires
            old(self).wf(),
            has_room(old(self)@, dag_name@, specs@.len(), spec_dependencies(spec_views(specs@))),
        ensures
            final(self).wf(),
            final(self).same_flags(*old(self)),
            match first_unregistered(spec_views(specs@), old(self)@.actions) {
                Some(a) => r is Err && reports(r->Err_0, Refusal::ActionNotRegistered(a)) && *final(self) == *old(self),
                None => match specs_added(old(self)@, dag_name@, spec_views(specs@)) {
                    Ok((after, ids)) => r is Ok && views(r->Ok_0@) == ids && final(self)@ == after,
                    Err(why) => r is Err && reports(r->Err_0, why) && *final(self) == *old(self),
                },
            },
    {
        if let Some(i) = find_unregistered(self, specs) {
            return Err(DagError::ActionNotRegistered(specs[i].action.clone()));
        }
        self.add_specs(dag_name, specs)
    }

    /// Adds nodes to a workflow, all or none: where a node is refused, nothing is added.
    pub(crate) fn add_specs(&mut self, dag_name: &str, specs: &Vec<NodeSpec>) -> (r: Result<Vec<String>, DagError>)
        requires
            old(self).wf(),
            has_room(old(self)@, dag_name@, specs@.len(), spec_dependencies(spec_views(specs@))),
        ensures
            final(self).wf(),
            final(self).same_flags(*old(self)),
            match specs_added(old(self)@, dag_name@, spec_views(specs@)) {
                Ok((after, ids)) => r is Ok && views(r->Ok_0@) == ids && final(self)@ == after,
                Err(why) => r is Err && reports(r->Err_0, why) && *final(self) == *old(self),
            },
    {
        let ghost start = self@;
        let ghost all = spec_views(specs@);
        let mut ids: Vec<String> = Vec::new();
        proof {
            assert(all.take(0) =~= Seq::<SpecView>::empty());
            assert(views(ids@) =~= Seq::<Seq<char>>::empty());
        }
        if specs.len() == 0 {
            proof {
                assert(all =~= Seq::<SpecView>::empty());
            }
            return Ok(ids);
        }
        let mut draft: Draft = match self.prebuilt_dags.get(dag_name) {
            Some(d) => Draft::of(d),
            None => {
                proof {
                    lemma_step(start, dag_name@, all, 0);
                    lemma_refused(start, dag_name@, all, 1);
                }
                if !self.function_registry.contains(specs[0].action.as_str()) {
                    return Err(DagError::ActionNotRegistered(specs[0].action.clone()));
                }
                return Err(DagError::NodeNotFound(cat2("DAG not found: ", dag_name)));
            },
        };
        let mut counter: usize = self.node_id_counter;
        let mut i: usize = 0;
        proof {
            assert(start.dags.insert(dag_name@, draft@) =~= start.dags);
            assert(node_views(draft.added@) =~= Seq::<NodeView>::empty());
            assert(defined(start.graphs, dag_name@, node_views(draft.added@)) =~= start.graphs) by {
                if start.graphs.contains_key(dag_name@) {
                    assert(start.graphs[dag_name@].nodes + node_views(draft.added@) =~= start.graphs[dag_name@].nodes);
                }
            }
        }
        while i < specs.len()
            invariant
                i <= specs@.len(),
                all == spec_views(specs@),
                *self == *old(self),
                self.wf(),
                start == self@,
                start.dags.contains_key(dag_name@),
                has_room(start, dag_name@, all.len(), spec_dependencies(all)),
                draft.wf(),
                draft.base@ == self.prebuilt_dags@[dag_name@].nodes@,
                specs_added(start, dag_name@, all.take(i as int)) is Ok,
                views(ids@) == specs_added(start, dag_name@, all.take(i as int))->Ok_0.1,
                ids@.len() == i,
                forall|k: int| 0 <= k < i ==> settled(start, dag_name@, all, k, (#[trigger] ids@[k])@),
                ({
                    let now = step(start, dag_name@, all, i as int);
                    &&& now.actions == start.actions
                    &&& now.config == start.config
                    &&& now.dags == start.dags.insert(dag_name@, draft@)
                    &&& now.graphs == defined(start.graphs, dag_name@, node_views(draft.added@))
                    &&& now.counter == counter
                }),
            decreases specs.len() - i,
        {
            let ghost now = step(start, dag_name@, all, i as int);
            let ghost ids_before = views(ids@);
            let ghost old_ids = ids@;
            let ghost added_before = node_views(draft.added@);
            let ghost spec = specs@[i as int]@;
            proof {
                assert(all[i as int] == spec);
                lemma_room(start, dag_name@, all, i as int);
                lemma_step(start, dag_name@, all, i as int);
            }
            let id: String = match clone_opt(&specs[i].id) {
                Some(id) => id,
                None => {
                    let (id, next) = make_id(counter, specs[i].action.as_str());
                    counter = next;
                    id
                },
            };
            if !self.function_registry.contains(specs[i].action.as_str()) {
                proof {
                    lemma_refused(start, dag_name@, all, i + 1);
                }
                return Err(DagError::ActionNotRegistered(specs[i].action.clone()));
            }
            let node = make_node(
                &self.config,
                id.as_str(),
                specs[i].action.as_str(),
                &specs[i].deps,
                specs[i].timeout,
                specs[i].try_count,
            );
            proof {
                assert(node@ =~= spec_node(start.config, id@, spec));
                assert(node.dependencies@.len() == node@.dependencies.len());
            }
            let ghost view = node@;
            match draft.add(node) {
                Ok(()) => {},
                Err(e) => {
                    proof {
                        lemma_refused(start, dag_name@, all, i + 1);
                    }
                    return Err(e);
                },
            }
            ids.push(id);
            proof {
                assert(views(ids@) =~= ids_before.push(id@));
                assert forall|k: int| 0 <= k < i + 1 implies settled(start, dag_name@, all, k, (#[trigger] ids@[k])@) by {
                    if k < i {
                        assert(ids@[k] == old_ids[k]);
                    }
                }
                assert(node_views(draft.added@) =~= added_before.push(view));
                let next = step(start, dag_name@, all, i + 1);
                assert(next.dags =~= start.dags.insert(dag_name@, draft@));
                assert(next.graphs =~= defined(start.graphs, dag_name@, node_views(draft.added@))) by {
                    if start.graphs.contains_key(dag_name@) {
                        let nodes = start.graphs[dag_name@].nodes;
                        assert((nodes + added_before) + seq![view] =~= nodes + node_views(draft.added@));
                    }
                }
            }
            i = i + 1;
        }
        proof {
            assert(all.take(i as int) =~= all);
        }
        self.replace(dag_name, draft);
        self.node_id_counter = counter;
        let ghost placed = self@;
        let mut k: usize = 0;
        while k < specs.len()
            invariant
                k <= specs@.len(),
                ids@.len() == specs@.len(),
                all == spec_views(specs@),
                all.take(all.len() as int) == all,
                self.wf(),
                self.same_flags(*old(self)),
                self@ == (ExecutorView { inputs: step(start, dag_name@, all, k as int).inputs, ..placed }),
                specs_added(start, dag_name@, all) is Ok,
                forall|k: int| 0 <= k < ids@.len() ==> settled(start, dag_name@, all, k, (#[trigger] ids@[k])@),
            decreases specs.len() - k,
        {
            proof {
                assert(all[k as int] == specs@[k as int]@);
                assert(settled(start, dag_name@, all, k as int, ids@[k as int]@));
                lemma_step(start, dag_name@, all, k as int);
                if specs_added(start, dag_name@, all.take(k + 1)) is Err {
                    lemma_refused(start, dag_name@, all, k + 1);
                }
            }
            if !specs[k].inputs.is_null() {
                self.node_inputs.insert_value(dag_name, ids[k].as_str(), specs[k].inputs.clone());
            }
            k = k + 1;
        }
        Ok(ids)
    }

    /// Loads a workflow definition: its configuration is merged over that of the executor
    /// and checked, its graph is built, and both are kept under its name. A definition with a
    /// cycle is refused.
    pub fn load_graph(&mut self, graph: Graph) -> (r: Result<(), String>)
        requires
            old(self).wf(),
            graph.nodes@.len() <= MAX_ELEMENTS + 1,
            dependency_count(graph.nodes@) <= MAX_ELEMENTS + 1,
        ensures
            final(self).wf(),
            final(self).same_flags(*old(self)),
            r is Ok <==> (graph.config is Some ==> config_problem(overridden(old(self).config, graph.config->0)) is None)
                && all_dependencies_known(graph.nodes@, located(graph.nodes@)) && all_actions_known(
                graph.nodes@,
                old(self)@.actions,
            ) && !cyclic(all_edges(located(graph.nodes@), graph.nodes@)),
            r is Ok ==> final(self)@ == (ExecutorView {
                graphs: old(self)@.graphs.insert(graph.name@, merged_graph(old(self).config, graph)@),
                dags: old(self)@.dags.insert(
                    graph.name@,
                    DagView {
                        nodes: node_views(graph.nodes@),
                        indices: located(graph.nodes@),
                        edges: all_edges(located(graph.nodes@), graph.nodes@),
                    },
                ),
                ..old(self)@
            }),
            r matches Err(e) ==> *final(self) == *old(self) && if graph.config is Some && config_problem(
                overridden(old(self).config, graph.config->0),
            ) is Some {
                config_problem(overridden(old(self).config, graph.config->0)) == Some(e@)
            } else {
                definition_problem(graph.nodes@, located(graph.nodes@), old(self)@.actions, e@)
            },
    {
        let merged: Option<DagConfig> = match graph.config {
            Some(c) => match DagConfig::merge(&self.config, &c) {
                Ok(m) => Some(m),
                Err(e) => {
                    return Err(e);
                },
            },
            None => None,
        };
        let ghost original = graph;
        let graph = Graph {
            nodes: graph.nodes,
            name: graph.name,
            description: graph.description,
            instructions: graph.instructions,
            tags: graph.tags,
            author: graph.author,
            version: graph.version,
            signature: graph.signature,
            config: merged,
        };
        let dag = match build_dag_internal(&self.function_registry, &graph) {
            Ok(d) => d,
            Err(e) => {
                return Err(e);
            },
        };
        let ghost view = dag@;
        let key = graph.name.clone();
        let other = graph.name.clone();
        self.graphs.insert(key, graph);
        self.prebuilt_dags.insert(other, dag);
        proof {
            assert(self@.graphs =~= old(self)@.graphs.insert(original.name@, merged_graph(old(self).config, original)@));
            assert(self@.dags =~= old(self)@.dags.insert(original.name@, view));
            assert forall|k: Seq<char>| #[trigger] self.prebuilt_dags@.contains_key(k) implies self.prebuilt_dags@[k].wf() by {
                if k != original.name@ {
                    assert(old(self).prebuilt_dags@.contains_key(k));
                }
            }
        }
        Ok(())
    }

    /// Whether a workflow has a node.
    pub open spec fn has(&self, dag_name: Seq<char>, node_id: Seq<char>) -> bool {
        self@.dags.contains_key(dag_name) && self@.dags[dag_name].indices.contains_key(node_id)
    }

    /// Whether a workflow has a node.
    pub fn node_exists(&self, dag_name: &str, node_id: &str) -> (r: bool)
        ensures
            r == self.has(dag_name@, node_id@),
    {
        match self.prebuilt_dags.get(dag_name) {
            Some(d) => d.indices.contains_key(node_id),
            None => false,
        }
    }

    /// Insists that a workflow has a node.
    pub fn require_dep(&self, dag_name: &str, dep_id: &str) -> (r: Result<(), DagError>)
        ensures
            r is Ok <==> self.has(dag_name@, dep_id@),
            r matches Err(e) ==> e is DependencyNotFound && e->DependencyNotFound_0@ == dep_id@,
    {
        if !self.node_exists(dag_name, dep_id) {
            return Err(DagError::DependencyNotFound(owned(dep_id)));
        }
        Ok(())
    }

    /// The nodes of a workflow by level.
    pub fn compute_levels(&self, dag_name: &str) -> (r: Result<Vec<(usize, Vec<String>)>, DagError>)
        requires
            self.wf(),
        ensures
            r is Ok <==> self.prebuilt_dags@.contains_key(dag_name@),
            r matches Ok(levels) ==> by_level(
                self.prebuilt_dags@[dag_name@].graph.edges(),
                self.prebuilt_dags@[dag_name@].nodes@,
                levels@,
            ),
            r matches Err(e) ==> e is DagNotFound && e->DagNotFound_0@ == dag_name@,
    {
        match self.prebuilt_dags.get(dag_name) {
            Some(d) => Ok(d.compute_levels()),
            None => Err(DagError::DagNotFound(owned(dag_name))),
        }
    }

    /// Sets what a single node reads when it runs, in place of what was set before.
    pub fn set_node_inputs_json(&mut self, dag_name: &str, node_id: &str, inputs: Value) -> (r: Result<(), DagError>)
        requires
            old(self).wf(),
        ensures
            r is Ok,
            final(self).wf(),
            final(self).same_flags(*old(self)),
            final(self)@ == inputs_set(old(self)@, dag_name@, node_id@, inputs@),
    {
        self.node_inputs.insert_value(dag_name, node_id, inputs);
        Ok(())
    }

    /// What was set for a single node to read; the empty object where nothing was.
    pub fn get_node_inputs_json(&self, dag_name: &str, node_id: &str) -> (r: Result<Value, DagError>)
        ensures
            r is Ok,
            r matches Ok(v) ==> v@ == set_inputs(self@, dag_name@, node_id@),
    {
        match self.node_inputs.get_value(dag_name, node_id) {
            Some(v) => Ok(v.clone()),
            None => {
                let v = object(Vec::new());
                proof {
                    assert(v@->Object_0 =~= Seq::<(Seq<char>, Json)>::empty());
                }
                Ok(v)
            },
        }
    }

    /// Checks that the workflow `name` can be executed: it is loaded and has nodes.
    pub fn prepare_static(&self, name: &str) -> (r: Result<(), DagError>)
        requires
            self.wf(),
        ensures
            r is Ok <==> self.prebuilt_dags@.contains_key(name@) && self.prebuilt_dags@[name@].nodes@.len() > 0,
            r matches Err(e) ==> if self.prebuilt_dags@.contains_key(name@) {
                e is InvalidGraph && e->InvalidGraph_0@ == "Graph '"@ + name@ + "' contains no nodes"@
            } else {
                e is NodeNotFound && e->NodeNotFound_0@ == "Graph '"@ + name@ + "' not found"@
            },
    {
        match self.prebuilt_dags.get(name) {
            Some(d) => {
                if d.graph.node_count() == 0 {
                    return Err(DagError::InvalidGraph(cat3("Graph '", name, "' contains no nodes")));
                }
                Ok(())
            },
            None => Err(DagError::NodeNotFound(cat3("Graph '", name, "' not found"))),
        }
    }
}

/// The workflow with which an agent starts on the task `name`: one supervisor node.
pub open spec fn agent_node(config: DagConfig) -> NodeView {
    NodeView {
        id: "supervisor_start"@,
        dependencies: Seq::empty(),
        inputs: Seq::empty(),
        outputs: Seq::empty(),
        action: "supervisor_step"@,
        failure: Seq::empty(),
        onfailure: true,
        description: "Supervisor node"@,
        timeout: if config.timeout_seconds is Some {
            config.timeout_seconds->0
        } else {
            3600
        },
        try_count: if config.max_attempts is Some {
            config.max_attempts->0
        } else {
            3
        },
        instructions: None,
    }
}

/// The definition of the workflow with which an agent starts on the task `name`.
pub open spec fn agent_graph(config: DagConfig, name: Seq<char>) -> GraphView {
    GraphView {
        nodes: seq![agent_node(config)],
        name,
        description: "Agent-driven DAG for task: "@ + name,
        instructions: None,
        tags: seq!["agent"@],
        author: "system"@,
        version: "1.0"@,
        signature: "auto-generated"@,
        config: Some(config),
    }
}

/// The graph of the workflow with which an agent starts.
pub open spec fn agent_dag(config: DagConfig) -> DagView {
    DagView {
        nodes: seq![agent_node(config)],
        indices: Map::empty().insert("supervisor_start"@, 0usize),
        edges: Seq::empty(),
    }
}

fn agent_definition(config: &DagConfig, name: &str) -> (r: Graph)
    ensures
        r@ == agent_graph(*config, name@),
        r.nodes@.len() == 1,
        r.nodes@[0].dependencies@.len() == 0,
{
    let mut nodes: Vec<Node> = Vec::new();
    let node = Node {
        id: owned("supervisor_start"),
        action: owned("supervisor_step"),
        dependencies: Vec::new(),
        inputs: Vec::new(),
        outputs: Vec::new(),
        failure: String::new(),
        onfailure: true,
        description: owned("Supervisor node"),
        timeout: match config.timeout_seconds {
            Some(t) => t,
            None => 3600,
        },
        try_count: match config.max_attempts {
            Some(t) => t,
            None => 3,
        },
        instructions: None,
    };
    proof {
        assert(node@ =~= agent_node(*config));
    }
    nodes.push(node);
    let mut tags: Vec<String> = Vec::new();
    tags.push(owned("agent"));
    let r = Graph {
        name: owned(name),
        nodes,
        description: cat2("Agent-driven DAG for task: ", name),
        instructions: None,
        tags,
        author: owned("system"),
        version: owned("1.0"),
        signature: owned("auto-generated"),
        config: Some(*config),
    };
    proof {
        assert(node_views(r.nodes@) =~= seq![agent_node(*config)]);
        assert(views(r.tags@) =~= seq!["agent"@]);
    }
    r
}

impl<A> DagExecutor<A> {
    /// Makes ready the workflow of the agent task `name`. The first time it is set up, where
    /// no workflow of that name is loaded, with a single supervisor node.
    pub fn prepare_agent(&mut self, name: &str) -> (r: Result<(), DagError>)
        requires
            old(self).wf(),
        ensures
            final(self).wf(),
            r is Ok <==> old(self)@.actions.contains_key("supervisor_step"@) && (old(self)@.dags.contains_key(name@)
                || !old(self).bootstrapped_agents@.contains(name@)),
            r matches Err(e) ==> if !old(self)@.actions.contains_key("supervisor_step"@) {
                e is ActionNotFound && e->ActionNotFound_0@ == "supervisor_step"@ && *final(self) == *old(self)
            } else {
                e is NodeNotFound && e->NodeNotFound_0@ == "Agent DAG '"@ + name@ + "' not found"@
            },
            *final(self) == (DagExecutor {
                graphs: final(self).graphs,
                prebuilt_dags: final(self).prebuilt_dags,
                bootstrapped_agents: final(self).bootstrapped_agents,
                ..*old(self)
            }),
            old(self)@.actions.contains_key("supervisor_step"@) ==> final(self).bootstrapped_agents@
                == old(self).bootstrapped_agents@.insert(name@),
            final(self)@ == (if old(self)@.actions.contains_key("supervisor_step"@) && !old(self)@.dags.contains_key(name@)
                && !old(self).bootstrapped_agents@.contains(name@) {
                ExecutorView {
                    graphs: old(self)@.graphs.insert(name@, agent_graph(old(self).config, name@)),
                    dags: old(self)@.dags.insert(name@, agent_dag(old(self).config)),
                    ..old(self)@
                }
            } else {
                old(self)@
            }),
    {
        if !self.function_registry.contains("supervisor_step") {
            return Err(DagError::ActionNotFound(owned("supervisor_step")));
        }
        let fresh: bool = self.bootstrapped_agents.insert(owned(name));
        if fresh && !self.prebuilt_dags.contains_key(name) {
            let config = self.config;
            let graph = agent_definition(&config, name);
            proof {
                assert(graph.nodes@.drop_last() =~= Seq::<Node>::empty());
                assert(dependency_count(graph.nodes@.drop_last()) == 0);
                assert(dependency_count(graph.nodes@) == 0);
                assert(node_views(graph.nodes@)[0] == graph.nodes@[0]@);
                assert(graph.nodes@[0]@ == agent_node(config));
                assert(graph@.config == Some(config));
                lemma_agent_dag(graph.nodes@, config, self.function_registry@);
            }
            match build_dag_internal(&self.function_registry, &graph) {
                Ok(dag) => {
                    let ghost view = dag@;
                    proof {
                        assert(view =~= agent_dag(config));
                    }
                    self.graphs.insert(owned(name), graph);
                    self.prebuilt_dags.insert(owned(name), dag);
                    proof {
                        assert(self@.graphs =~= old(self)@.graphs.insert(name@, agent_graph(config, name@)));
                        assert(self@.dags =~= old(self)@.dags.insert(name@, view));
                        assert forall|k: Seq<char>| #[trigger]
                            self.prebuilt_dags@.contains_key(k) implies self.prebuilt_dags@[k].wf() by {
                            if k != name@ {
                                assert(old(self).prebuilt_dags@.contains_key(k));
                            }
                        }
                    }
                },
                Err(e) => {
                    return Err(DagError::InvalidGraph(e));
                },
            }
        }
        if !self.prebuilt_dags.contains_key(name) {
            return Err(DagError::NodeNotFound(cat3("Agent DAG '", name, "' not found")));
        }
        Ok(())
    }
}

proof fn lemma_agent_dag<A>(nodes: Seq<Node>, config: DagConfig, actions: Map<Seq<char>, A>)
    requires
        nodes.len() == 1,
        nodes[0]@ == agent_node(config),
        nodes[0].dependencies@.len() == 0,
        actions.contains_key("supervisor_step"@),
    ensures
        located(nodes) == Map::<Seq<char>, usize>::empty().insert("supervisor_start"@, 0usize),
        all_edges(located(nodes), nodes) == Seq::<(nat, nat)>::empty(),
        !cyclic(all_edges(located(nodes), nodes)),
        all_dependencies_known(nodes, located(nodes)),
        all_actions_known(nodes, actions),
{
    let m = located(nodes);
    assert(nodes[0].id@ == "supervisor_start"@);
    assert(nodes.drop_last() =~= Seq::<Node>::empty());
    assert(all_edges(m, nodes.drop_last()) =~= Seq::<(nat, nat)>::empty());
    assert(all_edges(m, nodes) =~= Seq::<(nat, nat)>::empty());
    lemma_no_edges_acyclic(all_edges(m, nodes));
    assert forall|k: Seq<char>| m.contains_key(k) <==> k == "supervisor_start"@ by {
        if has_node(nodes, k) {
            let i = choose|i: int| 0 <= i < nodes.len() && (#[trigger] nodes[i]).id@ == k;
            assert(i == 0);
        }
        if k == "supervisor_start"@ {
            assert(nodes[0].id@ == k);
        }
    }
    assert(last_position(nodes, "supervisor_start"@) == 0);
    assert(m =~= Map::<Seq<char>, usize>::empty().insert("supervisor_start"@, 0usize));
}

/// `cuid2::create_id`: a new random id. Nothing is known of it.
#[verifier::external_body]
fn random_id() -> (r: String) {
    cuid2::create_id()
}

impl<A> DagExecutor<A> {
    /// Adds a node that waits for a human to the workflow `name`.
    pub fn add_human_check(&mut self, name: &str, check_id: &str) -> (r: Result<(), DagError>)
        requires
            old(self).wf(),
            has_room(old(self)@, name@, 1, 0),
        ensures
            final(self).wf(),
            final(self).same_flags(*old(self)),
            match node_added(
                old(self)@,
                name@,
                "human_check_"@ + check_id@,
                "human_interrupt"@,
                Seq::empty(),
            ) {
                Ok(after) => r is Ok && final(self)@ == after,
                Err(why) => r is Err && reports(r->Err_0, why) && *final(self) == *old(self),
            },
    {
        let deps: Vec<String> = Vec::new();
        proof {
            assert(views(deps@) =~= Seq::<Seq<char>>::empty());
        }
        let id = cat2("human_check_", check_id);
        self.add_node(name, id.as_str(), "human_interrupt", &deps)
    }

    /// Closes an execution of the workflow `name`: where a human has to look at it, a node
    /// that waits for one is added, under a new id.
    pub fn conclude(&mut self, name: &str, needs_human_check: bool) -> (r: Result<(), DagError>)
        requires
            old(self).wf(),
            has_room(old(self)@, name@, 1, 0),
        ensures
            final(self).wf(),
            final(self).same_flags(*old(self)),
            !needs_human_check ==> r is Ok && *final(self) == *old(self),
            needs_human_check ==> exists|id: Seq<char>|
                match #[trigger] node_added(old(self)@, name@, "human_check_"@ + id, "human_interrupt"@, Seq::empty()) {
                    Ok(after) => r is Ok && final(self)@ == after,
                    Err(why) => r is Err && reports(r->Err_0, why) && *final(self) == *old(self),
                },
    {
        if needs_human_check {
            let id = random_id();
            self.add_human_check(name, id.as_str())
        } else {
            Ok(())
        }
    }

    /// Resumes a workflow that was paused; `pending` says whether its saved state is.
    pub fn resume_from_pause(&mut self, dag_id: &str, pending: bool) -> (r: Result<(), DagError>)
        ensures
            r is Ok <==> pending,
            pending ==> *final(self) == (DagExecutor { paused: false, ..*old(self) }),
            r matches Err(e) ==> *final(self) == *old(self) && e is InvalidState && e->InvalidState_0@ == "DAG "@
                + dag_id@ + " is not in paused state"@,
    {
        if !pending {
            return Err(DagError::InvalidState(cat3("DAG ", dag_id, " is not in paused state")));
        }
        self.paused = false;
        Ok(())
    }

    /// Stops execution; returns whether some workflow waits for a human.
    pub fn stop(&mut self) -> (r: bool)
        ensures
            *final(self) == (DagExecutor { stopped: true, ..*old(self) }),
            r == (old(self)@.actions.contains_key("human_interrupt"@) && exists|i: int, j: int|
                #[trigger] waits_for_human(old(self).graphs.pairs(), i, j)),
    {
        self.stopped = true;
        if !self.function_registry.contains("human_interrupt") {
            return false;
        }
        let n: usize = self.graphs.len();
        let ghost pairs = old(self).graphs.pairs();
        let mut i: usize = 0;
        while i < n
            invariant
                i <= n,
                n == pairs.len(),
                pairs == self.graphs.pairs(),
                pairs == old(self).graphs.pairs(),
                self.function_registry@.contains_key("human_interrupt"@),
                *self == (DagExecutor { stopped: true, ..*old(self) }),
                forall|a: int, b: int| 0 <= a < i ==> !#[trigger] waits_for_human(pairs, a, b),
            decreases n - i,
        {
            let g = self.graphs.value_at(i);
            let mut j: usize = 0;
            while j < g.nodes.len()
                invariant
                    i < n,
                    n == pairs.len(),
                    pairs == old(self).graphs.pairs(),
                    *g == pairs[i as int].1,
                    j <= g.nodes@.len(),
                    *self == (DagExecutor { stopped: true, ..*old(self) }),
                    self.function_registry@.contains_key("human_interrupt"@),
                    forall|b: int| 0 <= b < j ==> !#[trigger] waits_for_human(pairs, i as int, b),
                decreases g.nodes.len() - j,
            {
                if same(g.nodes[j].action.as_str(), "human_interrupt") {
                    proof {
                        assert(waits_for_human(pairs, i as int, j as int));
                    }
                    return true;
                }
                j = j + 1;
            }
            i = i + 1;
        }
        false
    }
}

/// Node `j` of definition `i` waits for a human.
pub open spec fn waits_for_human(pairs: Seq<(String, Graph)>, i: int, j: int) -> bool {
    &&& 0 <= i < pairs.len()
    &&& 0 <= j < pairs[i].1.nodes@.len()
    &&& pairs[i].1.nodes@[j].action@ == "human_interrupt"@
}

/// The name and description of each definition that `keep` picks, in order.
pub open spec fn listed(pairs: Seq<(String, Graph)>, keep: spec_fn(Graph) -> bool) -> Seq<(Seq<char>, Seq<char>)>
    decreases pairs.len(),
{
    if pairs.len() == 0 {
        Seq::empty()
    } else {
        let rest = listed(pairs.drop_last(), keep);
        if keep(pairs.last().1) {
            rest.push((pairs.last().0@, pairs.last().1.description@))
        } else {
            rest
        }
    }
}

/// What a list of pairs of texts says.
pub open spec fn pair_views(v: Seq<(String, String)>) -> Seq<(Seq<char>, Seq<char>)> {
    Seq::new(v.len(), |i: int| (v[i].0@, v[i].1@))
}

/// Whether one of the tags of `g` contains `filter`.
pub open spec fn tag_matches(g: Graph, filter: Seq<char>) -> bool {
    exists|i: int| 0 <= i < g.tags@.len() && occurs((#[trigger] g.tags@[i])@, filter)
}

/// Whether `g` has all of `tags`.
pub open spec fn has_tags(g: Graph, tags: Seq<String>) -> bool {
    forall|i: int| 0 <= i < tags.len() ==> holds_text(g.tags@, (#[trigger] tags[i])@)
}

fn any_tag_contains(g: &Graph, filter: &str) -> (r: bool)
    ensures
        r == tag_matches(*g, filter@),
{
    let mut i: usize = 0;
    while i < g.tags.len()
        invariant
            i <= g.tags.len(),
            forall|j: int| 0 <= j < i ==> !occurs((#[trigger] g.tags@[j])@, filter@),
        decreases g.tags.len() - i,
    {
        if contains_text(g.tags[i].as_str(), filter) {
            return true;
        }
        i = i + 1;
    }
    false
}

fn has_all_tags(g: &Graph, tags: &Vec<String>) -> (r: bool)
    ensures
        r == has_tags(*g, tags@),
{
    let mut i: usize = 0;
    while i < tags.len()
        invariant
            i <= tags.len(),
            forall|j: int| 0 <= j < i ==> holds_text(g.tags@, (#[trigger] tags@[j])@),
        decreases tags.len() - i,
    {
        if !contains(&g.tags, tags[i].as_str()) {
            return false;
        }
        i = i + 1;
    }
    true
}

impl<A> DagExecutor<A> {
    /// The names and descriptions of all definitions.
    pub fn list_dags(&self) -> (r: Vec<(String, String)>)
        ensures
            pair_views(r@) == listed(self.graphs.pairs(), |g: Graph| true),
    {
        let mut r: Vec<(String, String)> = Vec::new();
        let n: usize = self.graphs.len();
        let ghost pairs = self.graphs.pairs();
        let ghost keep = |g: Graph| true;
        let mut i: usize = 0;
        proof {
            assert(pairs.take(0) =~= Seq::<(String, Graph)>::empty());
            assert(pair_views(r@) =~= Seq::<(Seq<char>, Seq<char>)>::empty());
        }
        while i < n
            invariant
                i <= n,
                n == pairs.len(),
                pairs == self.graphs.pairs(),
                keep == (|g: Graph| true),
                pair_views(r@) == listed(pairs.take(i as int), keep),
            decreases n - i,
        {
            let ghost before = pair_views(r@);
            proof {
                assert(pairs.take(i + 1).drop_last() =~= pairs.take(i as int));
            }
            let name = self.graphs.key_at(i).clone();
            let description = self.graphs.value_at(i).description.clone();
            r.push((name, description));
            proof {
                assert(pair_views(r@) =~= before.push((pairs[i as int].0@, pairs[i as int].1.description@)));
            }
            i = i + 1;
        }
        proof {
            assert(pairs.take(i as int) =~= pairs);
        }
        r
    }

    /// The names and descriptions of the definitions with a tag that contains `filter`.
    pub fn list_dag_filtered_tag(&self, filter: &str) -> (r: Vec<(String, String)>)
        ensures
            pair_views(r@) == listed(self.graphs.pairs(), |g: Graph| tag_matches(g, filter@)),
    {
        let mut r: Vec<(String, String)> = Vec::new();
        let n: usize = self.graphs.len();
        let ghost pairs = self.graphs.pairs();
        let ghost keep = |g: Graph| tag_matches(g, filter@);
        let mut i: usize = 0;
        proof {
            assert(pairs.take(0) =~= Seq::<(String, Graph)>::empty());
            assert(pair_views(r@) =~= Seq::<(Seq<char>, Seq<char>)>::empty());
        }
        while i < n
            invariant
                i <= n,
                n == pairs.len(),
                pairs == self.graphs.pairs(),
                keep == (|g: Graph| tag_matches(g, filter@)),
                pair_views(r@) == listed(pairs.take(i as int), keep),
            decreases n - i,
        {
            let ghost before = pair_views(r@);
            proof {
                assert(pairs.take(i + 1).drop_last() =~= pairs.take(i as int));
            }
            let g = self.graphs.value_at(i);
            if any_tag_contains(g, filter) {
                let name = self.graphs.key_at(i).clone();
                let description = g.description.clone();
                r.push((name, description));
                proof {
                    assert(pair_views(r@) =~= before.push((pairs[i as int].0@, pairs[i as int].1.description@)));
                }
            }
            i = i + 1;
        }
        proof {
            assert(pairs.take(i as int) =~= pairs);
        }
        r
    }

    /// The names and descriptions of the definitions with all of `tags`.
    pub fn list_dag_multiple_tags(&self, tags: &Vec<String>) -> (r: Vec<(String, String)>)
        ensures
            pair_views(r@) == listed(self.graphs.pairs(), |g: Graph| has_tags(g, tags@)),
    {
        let mut r: Vec<(String, String)> = Vec::new();
        let n: usize = self.graphs.len();
        let ghost pairs = self.graphs.pairs();
        let ghost keep = |g: Graph| has_tags(g, tags@);
        let mut i: usize = 0;
        proof {
            assert(pairs.take(0) =~= Seq::<(String, Graph)>::empty());
            assert(pair_views(r@) =~= Seq::<(Seq<char>, Seq<char>)>::empty());
        }
        while i < n
            invariant
                i <= n,
                n == pairs.len(),
                pairs == self.graphs.pairs(),
                keep == (|g: Graph| has_tags(g, tags@)),
                pair_views(r@) == listed(pairs.take(i as int), keep),
            decreases n - i,
        {
            let ghost before = pair_views(r@);
            proof {
                assert(pairs.take(i + 1).drop_last() =~= pairs.take(i as int));
            }
            let g = self.graphs.value_at(i);
            if has_all_tags(g, tags) {
                let name = self.graphs.key_at(i).clone();
                let description = g.description.clone();
                r.push((name, description));
                proof {
                    assert(pair_views(r@) =~= before.push((pairs[i as int].0@, pairs[i as int].1.description@)));
                }
            }
            i = i + 1;
        }
        proof {
            assert(pairs.take(i as int) =~= pairs);
        }
        r
    }

    /// Name, description, author, version and signature of all definitions.
    pub fn list_dags_metadata(&self) -> (r: Vec<(String, String, String, String, String)>)
        ensures
            r@.len() == self.graphs.pairs().len(),
            forall|i: int|
                0 <= i < r@.len() ==> {
                    let (name, g) = self.graphs.pairs()[i];
                    (#[trigger] r@[i]) == (name, g.description, g.author, g.version, g.signature)
                },
    {
        let mut r: Vec<(String, String, String, String, String)> = Vec::new();
        let n: usize = self.graphs.len();
        let mut i: usize = 0;
        while i < n
            invariant
                i <= n,
                n == self.graphs.pairs().len(),
                r@.len() == i,
                forall|i: int|
                    0 <= i < r@.len() ==> {
                        let (name, g) = self.graphs.pairs()[i];
                        (#[trigger] r@[i]) == (name, g.description, g.author, g.version, g.signature)
                    },
            decreases n - i,
        {
            let name = self.graphs.key_at(i).clone();
            let g = self.graphs.value_at(i);
            r.push((name, g.description.clone(), g.author.clone(), g.version.clone(), g.signature.clone()));
            i = i + 1;
        }
        r
    }
}

/// The envelope `e` says that the branch `id` has the status `status`.
pub open spec fn announces(
    e: RuntimeEventEnvelope,
    sequence: u64,
    timestamp: u64,
    id: Seq<char>,
    status: Seq<char>,
    reason: Option<String>,
) -> bool {
    &&& e.version == ENVELOPE_VERSION
    &&& e.sequence == sequence
    &&& e.run_id@ == id
    &&& e.timestamp == timestamp
    &&& e.event is BranchStateUpdated
    &&& e.event->BranchStateUpdated_branch_id@ == id
    &&& e.event->BranchStateUpdated_status@ == status
    &&& e.event->BranchStateUpdated_reason == reason
}

/// Whether `event` tells those who listen, where there are any, that the branch `id` has the
/// status `status`, under the number `before`, and `after` is the number of the next event.
pub open spec fn told(
    event: Option<RuntimeEventEnvelope>,
    listened: bool,
    before: u64,
    after: u64,
    timestamp: u64,
    id: Seq<char>,
    status: Seq<char>,
    reason: Option<String>,
) -> bool {
    if listened {
        event is Some && announces(event->0, before, timestamp, id, status, reason) && after == following(before)
    } else {
        event is None && after == before
    }
}

impl<A> DagExecutor<A> {
    /// Nothing but branches changed.
    pub open spec fn same_workflows(&self, other: Self) -> bool {
        *self == (DagExecutor { branches: self.branches, ..other })
    }

    fn announce(
        &self,
        branch_id: &str,
        status: &str,
        reason: &Option<String>,
        timestamp: u64,
        sequence: &mut u64,
    ) -> (r: Option<RuntimeEventEnvelope>)
        ensures
            told(
                r,
                self.has_event_sink,
                *old(sequence),
                *final(sequence),
                timestamp,
                branch_id@,
                status@,
                *reason,
            ),
    {
        if self.has_event_sink {
            let number: u64 = next_sequence(sequence);
            Some(branch_event(number, timestamp, branch_id, status, reason))
        } else {
            None
        }
    }

    /// Pauses a branch at `now`; returns the event for those who listen. `sequence` is the
    /// number of the next event.
    pub fn pause_branch_at(
        &mut self,
        branch_id: &str,
        reason: Option<String>,
        now: u64,
        timestamp: u64,
        sequence: &mut u64,
    ) -> (r: Option<RuntimeEventEnvelope>)
        ensures
            final(self).same_workflows(*old(self)),
            final(self).branches@ == with_branch(
                old(self).branches@,
                branch_id@,
                paused_state(old(self).branches@[branch_id@], reason, now),
            ),
            told(
                r,
                old(self).has_event_sink,
                *old(sequence),
                *final(sequence),
                timestamp,
                branch_id@,
                "paused"@,
                reason,
            ),
    {
        let copy = clone_opt(&reason);
        self.branches.pause_branch_at(branch_id, copy, now);
        self.announce(branch_id, "paused", &reason, timestamp, sequence)
    }

    /// Pauses a branch now; returns the event for those who listen. `sequence` is the number
    /// of the next event.
    pub fn pause_branch(&mut self, branch_id: &str, reason: Option<String>, sequence: &mut u64) -> (r: Option<
        RuntimeEventEnvelope,
    >)
        ensures
            final(self).same_workflows(*old(self)),
            exists|now: u64|
                final(self).branches@ == with_branch(
                    old(self).branches@,
                    branch_id@,
                    #[trigger] paused_state(old(self).branches@[branch_id@], reason, now),
                ),
            exists|timestamp: u64| #[trigger]
                told(
                    r,
                    old(self).has_event_sink,
                    *old(sequence),
                    *final(sequence),
                    timestamp,
                    branch_id@,
                    "paused"@,
                    reason,
                ),
    {
        let now: u64 = now_ms();
        let timestamp: u64 = now_ms();
        self.pause_branch_at(branch_id, reason, now, timestamp, sequence)
    }

    /// Resumes a branch at `now`; returns the event for those who listen. `sequence` is the
    /// number of the next event.
    pub fn resume_branch_at(
        &mut self,
        branch_id: &str,
        now: u64,
        timestamp: u64,
        sequence: &mut u64,
    ) -> (r: Option<RuntimeEventEnvelope>)
        ensures
            final(self).same_workflows(*old(self)),
            final(self).branches@ == with_branch(
                old(self).branches@,
                branch_id@,
                resumed_state(old(self).branches@[branch_id@], now),
            ),
            told(
                r,
                old(self).has_event_sink,
                *old(sequence),
                *final(sequence),
                timestamp,
                branch_id@,
                "running"@,
                None,
            ),
    {
        self.branches.resume_branch_at(branch_id, now);
        self.announce(branch_id, "running", &None, timestamp, sequence)
    }

    /// Resumes a branch now; returns the event for those who listen. `sequence` is the number
    /// of the next event.
    pub fn resume_branch(&mut self, branch_id: &str, sequence: &mut u64) -> (r: Option<
        RuntimeEventEnvelope,
    >)
        ensures
            final(self).same_workflows(*old(self)),
            exists|now: u64|
                final(self).branches@ == with_branch(
                    old(self).branches@,
                    branch_id@,
                    #[trigger] resumed_state(old(self).branches@[branch_id@], now),
                ),
            exists|timestamp: u64| #[trigger]
                told(
                    r,
                    old(self).has_event_sink,
                    *old(sequence),
                    *final(sequence),
                    timestamp,
                    branch_id@,
                    "running"@,
                    None,
                ),
    {
        let now: u64 = now_ms();
        let timestamp: u64 = now_ms();
        self.resume_branch_at(branch_id, now, timestamp, sequence)
    }

    /// Cancels a branch; returns the event for those who listen, which carries the time
    /// `timestamp`. `sequence` is the number of the next event.
    pub fn cancel_branch_at(
        &mut self,
        branch_id: &str,
        reason: Option<String>,
        timestamp: u64,
        sequence: &mut u64,
    ) -> (r: Option<RuntimeEventEnvelope>)
        ensures
            final(self).same_workflows(*old(self)),
            final(self).branches@ == with_branch(
                old(self).branches@,
                branch_id@,
                cancelled_state(old(self).branches@[branch_id@], reason),
            ),
            told(
                r,
                old(self).has_event_sink,
                *old(sequence),
                *final(sequence),
                timestamp,
                branch_id@,
                "cancelled"@,
                reason,
            ),
    {
        let copy = clone_opt(&reason);
        self.branches.cancel_branch(branch_id, copy);
        self.announce(branch_id, "cancelled", &reason, timestamp, sequence)
    }

    /// Cancels a branch; returns the event for those who listen. `sequence` is the number of
    /// the next event.
    pub fn cancel_branch(&mut self, branch_id: &str, reason: Option<String>, sequence: &mut u64) -> (r: Option<
        RuntimeEventEnvelope,
    >)
        ensures
            final(self).same_workflows(*old(self)),
            final(self).branches@ == with_branch(
                old(self).branches@,
                branch_id@,
                cancelled_state(old(self).branches@[branch_id@], reason),
            ),
            exists|timestamp: u64| #[trigger]
                told(
                    r,
                    old(self).has_event_sink,
                    *old(sequence),
                    *final(sequence),
                    timestamp,
                    branch_id@,
                    "cancelled"@,
                    reason,
                ),
    {
        let timestamp: u64 = now_ms();
        self.cancel_branch_at(branch_id, reason, timestamp, sequence)
    }
}

/// The edges of a graph join its nodes, and its index points at them.
pub open spec fn closed_dag(d: DagView) -> bool {
    &&& forall|i: int| 0 <= i < d.edges.len() ==> (#[trigger] d.edges[i]).0 < d.nodes.len() && d.edges[i].1 < d.nodes.len()
    &&& forall|k: Seq<char>| #[trigger] d.indices.contains_key(k) ==> d.indices[k] < d.nodes.len()
}

/// A node added to a graph without cycles closes none, and is never refused on that account.
pub proof fn adding_keeps_acyclic<A>(s: ExecutorView<A>, name: Seq<char>, node: NodeView)
    requires
        s.dags.contains_key(name),
        closed_dag(s.dags[name]),
        !cyclic(s.dags[name].edges),
    ensures
        placed(s, name, node) matches Ok(after) ==> after.dags.contains_key(name) && !cyclic(after.dags[name].edges),
        placed(s, name, node) matches Err(why) ==> why !is Cyclic,
{
    let d = s.dags[name];
    let deps = node.dependencies;
    if super::executor::first_missing(deps, d.indices) is None {
        super::executor::lemma_all_present(deps, d.indices);
        lemma_grown_acyclic(d, deps, deps.len() as int);
        assert(dep_edges(d.indices, deps, d.nodes.len()).take(deps.len() as int) =~= dep_edges(d.indices, deps, d.nodes.len()));
    }
}

proof fn lemma_grown_acyclic(d: DagView, deps: Seq<Seq<char>>, n: int)
    requires
        closed_dag(d),
        !cyclic(d.edges),
        0 <= n <= deps.len(),
        forall|i: int| 0 <= i < deps.len() ==> d.indices.contains_key(#[trigger] deps[i]),
    ensures
        !cyclic(d.edges + dep_edges(d.indices, deps, d.nodes.len()).take(n)),
    decreases n,
{
    let all = dep_edges(d.indices, deps, d.nodes.len());
    if n == 0 {
        assert(d.edges + all.take(0) =~= d.edges);
    } else {
        lemma_grown_acyclic(d, deps, n - 1);
        let before = d.edges + all.take(n - 1);
        assert(d.edges + all.take(n) =~= before.push(all[n - 1]));
        assert(d.indices.contains_key(deps[n - 1]));
        assert forall|e: (nat, nat)| #[trigger] before.contains(e) implies e.0 != d.nodes.len() by {
            let i = choose|i: int| 0 <= i < before.len() && before[i] == e;
            if i < d.edges.len() {
                assert(d.edges[i].0 < d.nodes.len());
            } else {
                assert(d.indices.contains_key(deps[i - d.edges.len()]));
            }
        }
        lemma_sink_keeps_acyclic(before, all[n - 1].0, d.nodes.len());
    }
}

/// A node that was added is there, and the nodes that were there stay.
pub proof fn added_node_is_there<A>(s: ExecutorView<A>, name: Seq<char>, node: NodeView, other: Seq<char>)
    requires
        placed(s, name, node) is Ok,
        s.dags[name].indices.contains_key(other),
    ensures
        placed(s, name, node)->Ok_0.dags[name].indices.contains_key(node.id),
        placed(s, name, node)->Ok_0.dags[name].indices.contains_key(other),
        placed(s, name, node)->Ok_0.dags[name].indices[other] == s.dags[name].indices[other],
{
}

/// What was set for a node to read is read back, and what was set for other nodes stays.
pub proof fn set_inputs_are_read<A>(
    s: ExecutorView<A>,
    name: Seq<char>,
    id: Seq<char>,
    inputs: Json,
    other_name: Seq<char>,
    other: Seq<char>,
)
    ensures
        set_inputs(inputs_set(s, name, id, inputs), name, id) == inputs,
        other_name != name || other != id ==> set_inputs(inputs_set(s, name, id, inputs), other_name, other)
            == set_inputs(s, other_name, other),
{
}

/// Two ids that are made up differ as long as the counter differs.
pub proof fn made_up_ids_differ<A>(s: ExecutorView<A>, t: ExecutorView<A>, a: Seq<char>, b: Seq<char>)
    requires
        s.counter != t.counter,
    ensures
        made_up(s, a) != made_up(t, b),
{
    crate::text::numbered_differ(a, s.counter, b, t.counter);
}

/// Nodes are added all or none: where one is refused nothing changes, and otherwise each is there
/// behind those that were, as its spec asks for, under the id that is returned, and with the
/// inputs that the spec gives.
pub proof fn nodes_are_added_all_or_none<A>(e: &mut DagExecutor<A>, name: &str, specs: &Vec<NodeSpec>, r: Result<Vec<String>, DagError>)
    requires
        call_ensures(DagExecutor::<A>::add_nodes_atomic, (e, name, specs), r),
    ensures
        r is Err ==> *final(e) == *old(e),
        r matches Ok(ids) ==> super::executor::each_is_added(old(e)@, final(e)@, name@, spec_views(specs@), views(ids@)),
        forall|i: int|
            0 <= i < specs@.len() && !old(e)@.actions.contains_key((#[trigger] specs@[i]).action@) ==> r is Err,
{
    if specs_added(old(e)@, name@, spec_views(specs@)) is Ok {
        super::executor::lemma_each_is_added(old(e)@, name@, spec_views(specs@));
    }
    assert forall|i: int| 0 <= i < specs@.len() && !old(e)@.actions.contains_key((#[trigger] specs@[i]).action@) implies r is Err by {
        lemma_unregistered(spec_views(specs@), old(e)@.actions, i);
    }
}

proof fn lemma_unregistered<A>(specs: Seq<SpecView>, actions: Map<Seq<char>, A>, i: int)
    requires
        0 <= i < specs.len(),
        !actions.contains_key(specs[i].action),
    ensures
        first_unregistered(specs, actions) is Some,
    decreases specs.len(),
{
    if i < specs.len() - 1 {
        lemma_unregistered(specs.drop_last(), actions, i);
    }
}

/// A definition that is loaded is kept under its name as it is, but that its own configuration,
/// where it has one, is merged over the executor's: what it says wins. Its graph has its nodes.
/// Other workflows stay, and a definition that is refused changes nothing.
pub proof fn loaded_definition_is_kept<A>(e: &mut DagExecutor<A>, graph: Graph, r: Result<(), String>)
    requires
        call_ensures(DagExecutor::<A>::load_graph, (e, graph), r),
    ensures
        r is Err ==> *final(e) == *old(e),
        r is Ok ==> {
            let g = final(e)@.graphs[graph.name@];
            let d = final(e)@.dags[graph.name@];
            &&& final(e)@.graphs.contains_key(graph.name@) && final(e)@.dags.contains_key(graph.name@)
            &&& g.name == graph.name@ && g.description == graph.description@ && g.tags == views(graph.tags@) && g.author
                == graph.author@ && g.version == graph.version@ && g.signature == graph.signature@
            &&& g.nodes.len() == graph.nodes@.len() && d.nodes.len() == graph.nodes@.len()
            &&& forall|i: int| 0 <= i < graph.nodes@.len() ==> (#[trigger] g.nodes[i]) == graph.nodes@[i]@
            &&& forall|i: int| 0 <= i < graph.nodes@.len() ==> (#[trigger] d.nodes[i]) == graph.nodes@[i]@
            &&& graph.config is None ==> g.config is None
            &&& graph.config matches Some(own) ==> g.config is Some && g.config->0.on_failure == own.on_failure
                && g.config->0.human_timeout_action == own.human_timeout_action && g.config->0.retry_strategy
                == own.retry_strategy && g.config->0.enable_parallel_execution == own.enable_parallel_execution
                && g.config->0.enable_incremental_cache == own.enable_incremental_cache
            &&& graph.config matches Some(own) ==> g.config->0.timeout_seconds == (if own.timeout_seconds is Some {
                own.timeout_seconds
            } else {
                old(e).config.timeout_seconds
            }) && g.config->0.max_attempts == (if own.max_attempts is Some {
                own.max_attempts
            } else {
                old(e).config.max_attempts
            }) && g.config->0.max_iterations == (if own.max_iterations is Some {
                own.max_iterations
            } else {
                old(e).config.max_iterations
            }) && g.config->0.review_frequency == (if own.review_frequency is Some {
                own.review_frequency
            } else {
                old(e).config.review_frequency
            })
        },
        r is Ok ==> forall|i: int|
            0 <= i < graph.nodes@.len() ==> old(e)@.actions.contains_key((#[trigger] graph.nodes@[i]).action@),
        r is Ok ==> forall|i: int, j: int|
            0 <= i < graph.nodes@.len() && 0 <= j < graph.nodes@[i].dependencies@.len() ==> has_node(
                graph.nodes@,
                (#[trigger] graph.nodes@[i].dependencies@[j])@,
            ),
        forall|k: Seq<char>|
            k != graph.name@ ==> (#[trigger] final(e)@.dags.contains_key(k) <==> old(e)@.dags.contains_key(k)) && final(e)@.dags[k]
                == old(e)@.dags[k] && (final(e)@.graphs.contains_key(k) <==> old(e)@.graphs.contains_key(k)),
        final(e).config == old(e).config && final(e)@.inputs == old(e)@.inputs && final(e)@.actions == old(e)@.actions,
{
    if r is Ok {
        assert forall|i: int, j: int|
            0 <= i < graph.nodes@.len() && 0 <= j < graph.nodes@[i].dependencies@.len() implies has_node(
            graph.nodes@,
            (#[trigger] graph.nodes@[i].dependencies@[j])@,
        ) by {
            assert(super::dag::dependencies_known(graph.nodes@[i], located(graph.nodes@)));
            assert(located(graph.nodes@).contains_key(graph.nodes@[i].dependencies@[j]@));
        }
    }
}

/// The workflow of an agent starts with one node, which asks the supervisor, with the limits of
/// the settings; it is set up once, and only where there is a supervisor.
pub proof fn agent_starts_with_the_supervisor<A>(e: &mut DagExecutor<A>, name: &str, r: Result<(), DagError>)
    requires
        call_ensures(DagExecutor::<A>::prepare_agent, (e, name), r),
    ensures
        !old(e)@.actions.contains_key("supervisor_step"@) ==> (r matches Err(DagError::ActionNotFound(a)) && a@
            == "supervisor_step"@) && *final(e) == *old(e),
        old(e)@.actions.contains_key("supervisor_step"@) && old(e)@.dags.contains_key(name@) ==> r is Ok && final(e)@ == old(e)@,
        old(e)@.actions.contains_key("supervisor_step"@) && !old(e)@.dags.contains_key(name@) && old(e).bootstrapped_agents@.contains(name@) ==> r is Err && final(e)@ == old(e)@,
        old(e)@.actions.contains_key("supervisor_step"@) && !old(e)@.dags.contains_key(name@) && !old(e).bootstrapped_agents@.contains(name@) ==> {
            let d = final(e)@.dags[name@];
            let g = final(e)@.graphs[name@];
            &&& r is Ok && final(e)@.dags.contains_key(name@) && final(e)@.graphs.contains_key(name@)
            &&& d.nodes.len() == 1 && d.edges.len() == 0
            &&& d.nodes[0].id == "supervisor_start"@ && d.nodes[0].action == "supervisor_step"@ && d.nodes[0].dependencies.len()
                == 0
            &&& d.nodes[0].timeout == (match old(e).config.timeout_seconds {
                Some(t) => t,
                None => 3600,
            })
            &&& d.nodes[0].try_count == (match old(e).config.max_attempts {
                Some(n) => n,
                None => 3,
            })
            &&& d.nodes[0].onfailure
            &&& g.nodes.len() == 1 && g.nodes[0] == d.nodes[0] && g.name == name@ && g.config == Some(old(e).config)
            &&& d.indices.contains_key("supervisor_start"@) && d.indices["supervisor_start"@] == 0
        },
        old(e)@.actions.contains_key("supervisor_step"@) ==> final(e).bootstrapped_agents@.contains(name@),
        forall|k: Seq<char>| k != name@ ==> (#[trigger] final(e)@.dags.contains_key(k) <==> old(e)@.dags.contains_key(k)),
{
}

/// What is set for a node to read is what is read for it; for another node it is what was.
pub proof fn inputs_are_set_by_node<A>(
    a: &mut DagExecutor<A>,
    name: &str,
    id: &str,
    inputs: Value,
    r: Result<(), DagError>,
    b: &DagExecutor<A>,
    other_name: &str,
    other: &str,
    s: Result<Value, DagError>,
)
    requires
        call_ensures(DagExecutor::<A>::set_node_inputs_json, (a, name, id, inputs), r),
        call_ensures(DagExecutor::<A>::get_node_inputs_json, (b, other_name, other), s),
    ensures
        r is Ok && s is Ok,
        b@ == final(a)@ && other_name@ == name@ && other@ == id@ ==> s->Ok_0@ == inputs@,
        b@ == final(a)@ && !(other_name@ == name@ && other@ == id@) && old(a)@.inputs.contains_key(other_name@) && old(a)@.inputs[other_name@].contains_key(other@) ==> s->Ok_0@ == old(a)@.inputs[other_name@][other@],
        !(b@.inputs.contains_key(other_name@) && b@.inputs[other_name@].contains_key(other@)) ==> s->Ok_0@ is Object
            && s->Ok_0@->Object_0.len() == 0,
{
}

/// A workflow has the nodes that it has.
pub proof fn nodes_are_found<A>(e: &DagExecutor<A>, name: &str, id: &str, r: bool, s: Result<(), DagError>)
    requires
        call_ensures(DagExecutor::<A>::node_exists, (e, name, id), r),
        call_ensures(DagExecutor::<A>::require_dep, (e, name, id), s),
    ensures
        r <==> e@.dags.contains_key(name@) && e@.dags[name@].indices.contains_key(id@),
        s is Ok <==> r,
        s matches Err(x) ==> (x matches DagError::DependencyNotFound(d) && d@ == id@),
{
}

proof fn lemma_listed(pairs: Seq<(String, Graph)>, keep: spec_fn(Graph) -> bool)
    ensures
        listed(pairs, keep) == pairs.filter(|p: (String, Graph)| keep(p.1)).map_values(
            |p: (String, Graph)| (p.0@, p.1.description@),
        ),
    decreases pairs.len(),
{
    reveal(Seq::filter);
    let pick = |p: (String, Graph)| keep(p.1);
    let say = |p: (String, Graph)| (p.0@, p.1.description@);
    if pairs.len() > 0 {
        lemma_listed(pairs.drop_last(), keep);
        let rest = pairs.drop_last().filter(pick);
        if keep(pairs.last().1) {
            assert(pairs.filter(pick) == rest.push(pairs.last()));
            assert(rest.push(pairs.last()).map_values(say) =~= rest.map_values(say).push(say(pairs.last())));
        }
    }
    assert(listed(pairs, keep) =~= pairs.filter(pick).map_values(say));
}

/// All definitions are listed; or those of which some tag contains a text; or those that have all
/// of some tags: each by name and description, in order.
pub proof fn definitions_are_listed<A>(
    e: &DagExecutor<A>,
    all: Vec<(String, String)>,
    filter: &str,
    some: Vec<(String, String)>,
    tags: &Vec<String>,
    tagged: Vec<(String, String)>,
)
    requires
        call_ensures(DagExecutor::<A>::list_dags, (e,), all),
        call_ensures(DagExecutor::<A>::list_dag_filtered_tag, (e, filter), some),
        call_ensures(DagExecutor::<A>::list_dag_multiple_tags, (e, tags), tagged),
    ensures
        pair_views(all@) == e.graphs.pairs().map_values(|p: (String, Graph)| (p.0@, p.1.description@)),
        pair_views(some@) == e.graphs.pairs().filter(
            |p: (String, Graph)| exists|i: int| 0 <= i < p.1.tags@.len() && occurs((#[trigger] p.1.tags@[i])@, filter@),
        ).map_values(|p: (String, Graph)| (p.0@, p.1.description@)),
        pair_views(tagged@) == e.graphs.pairs().filter(
            |p: (String, Graph)| forall|i: int| 0 <= i < tags@.len() ==> holds_text(p.1.tags@, (#[trigger] tags@[i])@),
        ).map_values(|p: (String, Graph)| (p.0@, p.1.description@)),
{
    let pairs = e.graphs.pairs();
    lemma_listed(pairs, |g: Graph| true);
    lemma_listed(pairs, |g: Graph| tag_matches(g, filter@));
    lemma_listed(pairs, |g: Graph| has_tags(g, tags@));
    let yes = |g: Graph| true;
    lemma_filter_all(pairs, |p: (String, Graph)| yes(p.1));
    let say = |p: (String, Graph)| (p.0@, p.1.description@);
    let a = |p: (String, Graph)| exists|i: int| 0 <= i < p.1.tags@.len() && occurs((#[trigger] p.1.tags@[i])@, filter@);
    let ta = |g: Graph| tag_matches(g, filter@);
    let b = |p: (String, Graph)| ta(p.1);
    assert(a =~= b);
    let c = |p: (String, Graph)| forall|i: int| 0 <= i < tags@.len() ==> holds_text(p.1.tags@, (#[trigger] tags@[i])@);
    let td = |g: Graph| has_tags(g, tags@);
    let d = |p: (String, Graph)| td(p.1);
    assert(c =~= d);
}

proof fn lemma_filter_all(pairs: Seq<(String, Graph)>, keep: spec_fn((String, Graph)) -> bool)
    requires
        forall|p: (String, Graph)| #[trigger] keep(p),
    ensures
        pairs.filter(keep) == pairs,
    decreases pairs.len(),
{
    reveal(Seq::filter);
    if pairs.len() > 0 {
        lemma_filter_all(pairs.drop_last(), keep);
        assert(pairs.drop_last().push(pairs.last()) =~= pairs);
    }
}

/// A branch that is paused, resumed or cancelled is told to those who listen, under the next
/// number; where nobody listens, nothing is told and no number is used.
pub proof fn branch_changes_are_told<A>(
    e: &mut DagExecutor<A>,
    id: &str,
    reason: Option<String>,
    now: u64,
    timestamp: u64,
    sequence: &mut u64,
    r: Option<RuntimeEventEnvelope>,
)
    requires
        call_ensures(DagExecutor::<A>::pause_branch_at, (e, id, reason, now, timestamp, sequence), r),
    ensures
        r is Some <==> old(e).has_event_sink,
        r matches Some(x) ==> x.sequence == *old(sequence) && x.run_id@ == id@ && x.timestamp == timestamp && x.version == 2 && (
        x.event matches super::events::RuntimeEvent::BranchStateUpdated { branch_id, status, reason: why } && branch_id@ == id@
            && status@ == "paused"@ && why == reason),
        r is Some && *old(sequence) < u64::MAX ==> *final(sequence) == *old(sequence) + 1,
        r is None ==> *final(sequence) == *old(sequence),
        old(e).branches@.contains_key(id@) ==> final(e).branches@[id@].status is Paused && final(e).branches@[id@].reason == reason
            && final(e).branches@[id@].paused_at == Some(now),
        final(e)@ == old(e)@,
{
}

/// Resuming and cancelling are told as such.
pub proof fn resuming_and_cancelling_are_told<A>(
    a: &mut DagExecutor<A>,
    id: &str,
    now: u64,
    timestamp: u64,
    m: &mut u64,
    r: Option<RuntimeEventEnvelope>,
    b: &mut DagExecutor<A>,
    reason: Option<String>,
    n: &mut u64,
    s: Option<RuntimeEventEnvelope>,
)
    requires
        call_ensures(DagExecutor::<A>::resume_branch_at, (a, id, now, timestamp, m), r),
        call_ensures(DagExecutor::<A>::cancel_branch_at, (b, id, reason, timestamp, n), s),
    ensures
        r matches Some(x) ==> x.sequence == *old(m) && (x.event matches super::events::RuntimeEvent::BranchStateUpdated {
            branch_id,
            status,
            reason: why,
        } && branch_id@ == id@ && status@ == "running"@ && why is None),
        old(a).branches@.contains_key(id@) && old(a).branches@[id@].status is Paused ==> final(a).branches@[id@].status is Running,
        old(a).branches@.contains_key(id@) && !(old(a).branches@[id@].status is Paused) ==> final(a).branches@[id@] == old(a).branches@[id@],
        s matches Some(x) ==> x.sequence == *old(n) && (x.event matches super::events::RuntimeEvent::BranchStateUpdated {
            branch_id,
            status,
            reason: why,
        } && branch_id@ == id@ && status@ == "cancelled"@ && why == reason),
        old(b).branches@.contains_key(id@) ==> final(b).branches@[id@].status is Cancelled && final(b).branches@[id@].reason
            == reason,
{
}

/// A workflow that waits for a human has a node for it: the check under its id, with the action
/// that interrupts, and without dependencies.
pub proof fn human_check_is_added<A>(e: &mut DagExecutor<A>, name: &str, id: &str, r: Result<(), DagError>)
    requires
        call_ensures(DagExecutor::<A>::add_human_check, (e, name, id), r),
    ensures
        r is Err ==> *final(e) == *old(e),
        r is Ok ==> final(e)@.dags[name@].nodes.len() == old(e)@.dags[name@].nodes.len() + 1 && final(e)@.dags[name@].nodes.last().id == "human_check_"@ + id@ && final(e)@.dags[name@].nodes.last().action
            == "human_interrupt"@ && final(e)@.dags[name@].nodes.last().dependencies.len() == 0 && final(e)@.dags[name@].edges.len() == old(e)@.dags[name@].edges.len(),
        !old(e)@.actions.contains_key("human_interrupt"@) ==> r is Err,
        !old(e)@.dags.contains_key(name@) ==> r is Err,
{
}

/// The levels of a workflow are those of its graph, and there are none where there is no such
/// workflow.
pub proof fn levels_of_a_workflow<A>(e: &DagExecutor<A>, name: &str, r: Result<Vec<(usize, Vec<String>)>, DagError>)
    requires
        call_ensures(DagExecutor::<A>::compute_levels, (e, name), r),
    ensures
        r is Ok <==> e.prebuilt_dags@.contains_key(name@),
        r matches Err(x) ==> (x matches DagError::DagNotFound(n) && n@ == name@),
        r matches Ok(v) ==> forall|l: int| 0 <= l < v@.len() ==> (#[trigger] v@[l]).0 == l && v@[l].1@.len() > 0,
{
    if let Ok(v) = r {
        let dag = e.prebuilt_dags@[name@];
        let listing = choose|listing: Seq<Seq<usize>>| #[trigger]
            super::schedule::lists_levels(dag.graph.edges(), dag.nodes@, listing, v@);
        assert forall|l: int| 0 <= l < v@.len() implies (#[trigger] v@[l]).0 == l && v@[l].1@.len() > 0 by {
            assert(super::schedule::names_level(dag.nodes@, listing[l], v@[l].1@));
        }
    }
}

/// An executor that is told to stop stops. It says whether somebody has to be asked: where such
/// an action is registered and some node has it.
pub proof fn executor_stops<A>(e: &mut DagExecutor<A>, r: bool)
    requires
        call_ensures(DagExecutor::<A>::stop, (e,), r),
    ensures
        final(e).stopped && final(e).paused == old(e).paused && final(e).config == old(e).config && final(e).graphs == old(e).graphs,
        r <==> old(e)@.actions.contains_key("human_interrupt"@) && exists|i: int, j: int|
            0 <= i < old(e).graphs.pairs().len() && 0 <= j < old(e).graphs.pairs()[i].1.nodes@.len() && (
            #[trigger] old(e).graphs.pairs()[i].1.nodes@[j]).action@ == "human_interrupt"@,
{
    let pairs = old(e).graphs.pairs();
    if r {
        let (i, j) = choose|i: int, j: int| #[trigger] waits_for_human(pairs, i, j);
        assert(pairs[i].1.nodes@[j].action@ == "human_interrupt"@);
    }
    if exists|i: int, j: int|
        0 <= i < pairs.len() && 0 <= j < pairs[i].1.nodes@.len() && (#[trigger] pairs[i].1.nodes@[j]).action@ == "human_interrupt"@ {
        let (i, j) = choose|i: int, j: int|
            0 <= i < pairs.len() && 0 <= j < pairs[i].1.nodes@.len() && (#[trigger] pairs[i].1.nodes@[j]).action@
                == "human_interrupt"@;
        assert(waits_for_human(pairs, i, j));
    }
}

/// A workflow that ends without a check stays as it is.
pub proof fn workflow_ends_unchanged<A>(e: &mut DagExecutor<A>, name: &str, check: bool, r: Result<(), DagError>)
    requires
        call_ensures(DagExecutor::<A>::conclude, (e, name, check), r),
    ensures
        !check ==> r is Ok && *final(e) == *old(e),
        r is Err ==> *final(e) == *old(e),
        check && !old(e)@.actions.contains_key("human_interrupt"@) ==> r is Err,
        check && !old(e)@.dags.contains_key(name@) ==> r is Err,
        check && r is Ok ==> final(e)@.dags[name@].nodes.len() == old(e)@.dags[name@].nodes.len() + 1
            && final(e)@.dags[name@].nodes.last().action == "human_interrupt"@,
{
}

/// A branch that is paused, resumed or cancelled by the machine's clock is so, and only it.
pub proof fn branches_change_one_by_one<A>(
    a: &mut DagExecutor<A>,
    b: &mut DagExecutor<A>,
    c: &mut DagExecutor<A>,
    id: &str,
    reason: Option<String>,
    k: &mut u64,
    m: &mut u64,
    n: &mut u64,
    ra: Option<RuntimeEventEnvelope>,
    rb: Option<RuntimeEventEnvelope>,
    rc: Option<RuntimeEventEnvelope>,
    other: Seq<char>,
)
    requires
        call_ensures(DagExecutor::<A>::pause_branch, (a, id, reason, k), ra),
        call_ensures(DagExecutor::<A>::resume_branch, (b, id, m), rb),
        call_ensures(DagExecutor::<A>::cancel_branch, (c, id, reason, n), rc),
    ensures
        old(a).branches@.contains_key(id@) ==> final(a).branches@[id@].status is Paused && final(a).branches@[id@].reason == reason,
        old(b).branches@.contains_key(id@) && old(b).branches@[id@].status is Paused ==> final(b).branches@[id@].status is Running,
        old(b).branches@.contains_key(id@) && !(old(b).branches@[id@].status is Paused) ==> final(b).branches@[id@] == old(b).branches@[id@],
        old(c).branches@.contains_key(id@) ==> final(c).branches@[id@].status is Cancelled && final(c).branches@[id@].reason
            == reason,
        other != id@ ==> final(a).branches@[other] == old(a).branches@[other] && final(b).branches@[other] == old(b).branches@[other] && final(c).branches@[other] == old(c).branches@[other],
        ra is Some <==> old(a).has_event_sink,
        rb is Some <==> old(b).has_event_sink,
        rc is Some <==> old(c).has_event_sink,
        ra matches Some(x) ==> x.sequence == *old(k) && (x.event matches super::events::RuntimeEvent::BranchStateUpdated {
            branch_id,
            status,
            ..
        } && branch_id@ == id@ && status@ == "paused"@),
        rb matches Some(x) ==> x.sequence == *old(m) && (x.event matches super::events::RuntimeEvent::BranchStateUpdated {
            branch_id,
            status,
            ..
        } && branch_id@ == id@ && status@ == "running"@),
        rc matches Some(x) ==> x.sequence == *old(n) && (x.event matches super::events::RuntimeEvent::BranchStateUpdated {
            branch_id,
            status,
            ..
        } && branch_id@ == id@ && status@ == "cancelled"@),
{
}

/// A workflow can be run where it was loaded and has nodes; else it is said why not.
pub proof fn static_workflows_are_prepared<A>(e: &DagExecutor<A>, name: &str, r: Result<(), DagError>)
    requires
        call_ensures(DagExecutor::<A>::prepare_static, (e, name), r),
    ensures
        !e.prebuilt_dags@.contains_key(name@) ==> (r matches Err(DagError::NodeNotFound(s)) && s@ == "Graph '"@ + name@
            + "' not found"@),
        e.prebuilt_dags@.contains_key(name@) && e.prebuilt_dags@[name@].nodes@.len() == 0 ==> (r matches Err(
            DagError::InvalidGraph(s),
        ) && s@ == "Graph '"@ + name@ + "' contains no nodes"@),
        e.prebuilt_dags@.contains_key(name@) && e.prebuilt_dags@[name@].nodes@.len() > 0 ==> r is Ok,
{
}

/// What an agent's workflow says of itself.
pub proof fn agent_workflow_describes_itself<A>(e: &mut DagExecutor<A>, name: &str, r: Result<(), DagError>)
    requires
        call_ensures(DagExecutor::<A>::prepare_agent, (e, name), r),
        old(e)@.actions.contains_key("supervisor_step"@),
    ensures
        !old(e)@.dags.contains_key(name@) && !old(e).bootstrapped_agents@.contains(name@) ==> {
            let g = final(e)@.graphs[name@];
            &&& g.description == "Agent-driven DAG for task: "@ + name@ && g.author == "system"@ && g.version == "1.0"@
            &&& g.signature == "auto-generated"@ && g.tags == seq!["agent"@] && g.nodes[0].description == "Supervisor node"@
        },
        r matches Err(x) ==> (x matches DagError::NodeNotFound(s) && s@ == "Agent DAG '"@ + name@ + "' not found"@),
{
}

/// An executor goes on exactly where something waited to be resumed.
pub proof fn paused_executor_goes_on<A>(e: &mut DagExecutor<A>, id: &str, pending: bool, r: Result<(), DagError>)
    requires
        call_ensures(DagExecutor::<A>::resume_from_pause, (e, id, pending), r),
    ensures
        pending ==> r is Ok && !final(e).paused && final(e).stopped == old(e).stopped && final(e).graphs == old(e).graphs,
        !pending ==> *final(e) == *old(e) && (r matches Err(DagError::InvalidState(s)) && s@ == "DAG "@ + id@
            + " is not in paused state"@),
{
}

} // verus!
