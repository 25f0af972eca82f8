//! The executor: workflows, the actions they use, and how they change.

use super::branch::BranchRegistry;
use super::cache::{lookup, with_value, Cache};
use super::config::{default_config, DagConfig};
use super::dag::{
    all_dependencies_known, all_edges, edges_into, lemma_edges_push, lemma_locates_push, locates, validate_dag_structure, Dag,
};
use super::node::{node_views, DagError, Graph, Node, NodeView};
use super::planning::SpecView;
use crate::coord::registry::ActionRegistry;
use crate::graph::{cyclic, Digraph, MAX_ELEMENTS};
use crate::string_map::{copy_map, StringMap, StringSet};
use crate::text::{cat2, cat3, clone_list, contains, dec_usize, lowercased, numbered, owned, to_lowercase, views};
use crate::value::Json;
use vstd::prelude::*;

verus! {

/// What a [`Dag`] says.
#[verifier::ext_equal]
pub struct DagView {
    pub nodes: Seq<NodeView>,
    pub indices: Map<Seq<char>, usize>,
    pub edges: Seq<(nat, nat)>,
}

impl View for Dag {
    type V = DagView;

    open spec fn view(&self) -> DagView {
        DagView { nodes: node_views(self.nodes@), indices: self.indices@, edges: self.graph.edges() }
    }
}

/// What a [`Graph`] says.
#[verifier::ext_equal]
pub struct GraphView {
    pub nodes: Seq<NodeView>,
    pub name: Seq<char>,
    pub description: Seq<char>,
    pub instructions: Option<Seq<Seq<char>>>,
    pub tags: Seq<Seq<char>>,
    pub author: Seq<char>,
    pub version: Seq<char>,
    pub signature: Seq<char>,
    pub config: Option<DagConfig>,
}

impl View for Graph {
    type V = GraphView;

    open spec fn view(&self) -> GraphView {
        GraphView {
            nodes: node_views(self.nodes@),
            name: self.name@,
            description: self.description@,
            instructions: match self.instructions {
                Some(v) => Some(views(v@)),
                None => None,
            },
            tags: views(self.tags@),
            author: self.author@,
            version: self.version@,
            signature: self.signature@,
            config: self.config,
        }
    }
}

/// The workflows of an application and the actions that they use.
pub struct DagExecutor<A> {
    /// The actions that nodes can run.
    pub function_registry: ActionRegistry<A>,
    /// The workflow definitions.
    pub graphs: StringMap<Graph>,
    /// The graphs of the definitions.
    pub prebuilt_dags: StringMap<Dag>,
    /// How workflows are executed unless they say otherwise.
    pub config: DagConfig,
    /// Whether execution was stopped.
    pub stopped: bool,
    /// Whether execution was paused.
    pub paused: bool,
    /// The agent workflows that were set up.
    pub bootstrapped_agents: StringSet,
    /// How many nodes run at the same time, where nodes do.
    pub max_parallel: Option<usize>,
    /// The branches.
    pub branches: BranchRegistry,
    /// Whether events are listened to.
    pub has_event_sink: bool,
    /// What was set for single nodes to read, by workflow and node.
    pub node_inputs: Cache,
    /// How many node ids were made up.
    pub node_id_counter: usize,
}

/// What the part of a [`DagExecutor`] says that nodes are added to.
#[verifier::ext_equal]
pub struct ExecutorView<A> {
    pub actions: Map<Seq<char>, A>,
    pub graphs: Map<Seq<char>, GraphView>,
    pub dags: Map<Seq<char>, DagView>,
    pub config: DagConfig,
    pub counter: nat,
    pub inputs: Map<Seq<char>, Map<Seq<char>, Json>>,
}

impl<A> View for DagExecutor<A> {
    type V = ExecutorView<A>;

    open spec fn view(&self) -> ExecutorView<A> {
        ExecutorView {
            actions: self.function_registry@,
            graphs: self.graphs@.map_values(|g: Graph| g@),
            dags: self.prebuilt_dags@.map_values(|d: Dag| d@),
            config: self.config,
            counter: self.node_id_counter as nat,
            inputs: self.node_inputs@,
        }
    }
}

/// The node that is added to a running workflow.
pub open spec fn added_node(config: DagConfig, id: Seq<char>, action: Seq<char>, deps: Seq<Seq<char>>) -> NodeView {
    NodeView {
        id,
        dependencies: deps,
        inputs: Seq::empty(),
        outputs: Seq::empty(),
        action,
        failure: Seq::empty(),
        onfailure: true,
        description: "Dynamically added node: "@ + id,
        timeout: if config.timeout_seconds is Some {
            config.timeout_seconds->0
        } else {
            3600
        },
        try_count: if config.max_attempts is Some {
            config.max_attempts->0
        } else {
            3
        },
        instructions: None,
    }
}

/// The node that a spec asks for, under the id `id`: what the spec says of time and tries goes
/// before the configuration. More tries than can be counted are as many as can.
pub open spec fn spec_node(config: DagConfig, id: Seq<char>, spec: SpecView) -> NodeView {
    let node = added_node(config, id, spec.action, spec.deps);
    NodeView {
        timeout: match spec.timeout {
            Some(t) => t,
            None => node.timeout,
        },
        try_count: match spec.try_count {
            Some(n) => if n > u8::MAX {
                u8::MAX
            } else {
                n as u8
            },
            None => node.try_count,
        },
        ..node
    }
}

/// The edges into `target` from each of `deps`.
pub open spec fn dep_edges(indices: Map<Seq<char>, usize>, deps: Seq<Seq<char>>, target: nat) -> Seq<(nat, nat)> {
    Seq::new(deps.len(), |j: int| (indices[deps[j]] as nat, target))
}

/// A graph with one more node.
pub open spec fn grown(d: DagView, node: NodeView) -> DagView {
    DagView {
        nodes: d.nodes.push(node),
        indices: d.indices.insert(node.id, d.nodes.len() as usize),
        edges: d.edges + dep_edges(d.indices, node.dependencies, d.nodes.len()),
    }
}

/// Why a node is not added.
pub enum Refusal {
    /// Its action is not registered.
    ActionNotRegistered(Seq<char>),
    /// There is no such workflow.
    DagNotFound(Seq<char>),
    /// The workflow has a node of that id.
    NodeAlreadyExists(Seq<char>),
    /// A dependency is no node of the workflow.
    DependencyNotFound(Seq<char>),
    /// The workflow has a cycle.
    Cyclic,
}

/// The first of `deps` that `known` does not have.
pub open spec fn first_missing(deps: Seq<Seq<char>>, known: Map<Seq<char>, usize>) -> Option<Seq<char>>
    decreases deps.len(),
{
    if deps.len() == 0 {
        None
    } else {
        match first_missing(deps.drop_last(), known) {
            Some(d) => Some(d),
            None => if known.contains_key(deps.last()) {
                None
            } else {
                Some(deps.last())
            },
        }
    }
}

/// A graph after a node was added, or why it is not added.
pub open spec fn dag_grown(d: DagView, node: NodeView) -> Result<DagView, Refusal> {
    if d.indices.contains_key(node.id) {
        Err(Refusal::NodeAlreadyExists(node.id))
    } else if first_missing(node.dependencies, d.indices) is Some {
        Err(Refusal::DependencyNotFound(first_missing(node.dependencies, d.indices)->0))
    } else if cyclic(grown(d, node).edges) {
        Err(Refusal::Cyclic)
    } else {
        Ok(grown(d, node))
    }
}

/// A definition with more nodes, where there is one.
pub open spec fn defined(graphs: Map<Seq<char>, GraphView>, name: Seq<char>, nodes: Seq<NodeView>) -> Map<Seq<char>, GraphView> {
    if graphs.contains_key(name) {
        graphs.insert(name, GraphView { nodes: graphs[name].nodes + nodes, ..graphs[name] })
    } else {
        graphs
    }
}

/// The executor after `node` was added, or why it is not added.
pub open spec fn placed<A>(s: ExecutorView<A>, name: Seq<char>, node: NodeView) -> Result<ExecutorView<A>, Refusal> {
    if !s.actions.contains_key(node.action) {
        Err(Refusal::ActionNotRegistered(node.action))
    } else if !s.dags.contains_key(name) {
        Err(Refusal::DagNotFound(name))
    } else {
        match dag_grown(s.dags[name], node) {
            Ok(dag) => Ok(
                ExecutorView {
                    graphs: defined(s.graphs, name, seq![node]),
                    dags: s.dags.insert(name, dag),
                    ..s
                },
            ),
            Err(why) => Err(why),
        }
    }
}

/// The executor after a node was added with the settings of the executor, or why it is not
/// added.
pub open spec fn node_added<A>(
    s: ExecutorView<A>,
    name: Seq<char>,
    id: Seq<char>,
    action: Seq<char>,
    deps: Seq<Seq<char>>,
) -> Result<ExecutorView<A>, Refusal> {
    placed(s, name, added_node(s.config, id, action, deps))
}

/// Whether the error `e` reports the refusal `why`.
pub open spec fn reports(e: DagError, why: Refusal) -> bool {
    match why {
        Refusal::ActionNotRegistered(a) => e is ActionNotRegistered && e->ActionNotRegistered_0@ == a,
        Refusal::DagNotFound(n) => e is NodeNotFound && e->NodeNotFound_0@ == "DAG not found: "@ + n,
        Refusal::NodeAlreadyExists(id) => e is NodeAlreadyExists && e->NodeAlreadyExists_0@ == id,
        Refusal::DependencyNotFound(d) => e is DependencyNotFound && e->DependencyNotFound_0@ == d,
        Refusal::Cyclic => e is InvalidGraph && e->InvalidGraph_0@
            == "The graph is not a DAG as it contains cycles."@,
    }
}

/// Whether a workflow has room for `nodes` more nodes with `deps` dependencies together.
pub open spec fn has_room<A>(s: ExecutorView<A>, name: Seq<char>, nodes: nat, deps: nat) -> bool {
    s.dags.contains_key(name) ==> s.dags[name].nodes.len() + nodes <= MAX_ELEMENTS + 1 && s.dags[name].edges.len() + deps
        <= MAX_ELEMENTS + 1
}

/// The id that is made up next for `prefix`.
pub open spec fn made_up<A>(s: ExecutorView<A>, prefix: Seq<char>) -> Seq<char> {
    numbered(prefix, s.counter)
}

/// The executor after an id was made up.
pub open spec fn counted<A>(s: ExecutorView<A>) -> ExecutorView<A> {
    ExecutorView {
        counter: if s.counter == usize::MAX {
            0
        } else {
            s.counter + 1
        },
        ..s
    }
}

/// The executor after the inputs of a node were set.
pub open spec fn inputs_set<A>(s: ExecutorView<A>, name: Seq<char>, id: Seq<char>, inputs: Json) -> ExecutorView<A> {
    ExecutorView { inputs: with_value(s.inputs, name, id, inputs), ..s }
}

/// What was set for a node to read; the empty object where nothing was.
pub open spec fn set_inputs<A>(s: ExecutorView<A>, name: Seq<char>, id: Seq<char>) -> Json {
    match lookup(s.inputs, name, id) {
        Some(v) => v,
        None => Json::Object(Seq::empty()),
    }
}

/// The id of a node: the one that the spec says, or one that is made up.
pub open spec fn spec_id<A>(s: ExecutorView<A>, spec: SpecView) -> Seq<char> {
    match spec.id {
        Some(id) => id,
        None => made_up(s, spec.action),
    }
}

/// The executor after the id of a node was settled.
pub open spec fn after_id<A>(s: ExecutorView<A>, spec: SpecView) -> ExecutorView<A> {
    match spec.id {
        Some(_) => s,
        None => counted(s),
    }
}

/// The executor after the node of `spec` was added and given its inputs, or why it is not
/// added.
pub open spec fn spec_added<A>(s: ExecutorView<A>, name: Seq<char>, spec: SpecView) -> Result<ExecutorView<A>, Refusal> {
    let id = spec_id(s, spec);
    match placed(after_id(s, spec), name, spec_node(s.config, id, spec)) {
        Ok(after) => if spec.inputs is Null {
            Ok(after)
        } else {
            Ok(inputs_set(after, name, id, spec.inputs))
        },
        Err(why) => Err(why),
    }
}

/// The executor after the nodes of `specs` were added in order, with their ids, or why the
/// first that is refused is not added. Where one is refused, none is added.
pub open spec fn specs_added<A>(s: ExecutorView<A>, name: Seq<char>, specs: Seq<SpecView>) -> Result<
    (ExecutorView<A>, Seq<Seq<char>>),
    Refusal,
>
    decreases specs.len(),
{
    if specs.len() == 0 {
        Ok((s, Seq::empty()))
    } else {
        match specs_added(s, name, specs.drop_last()) {
            Err(why) => Err(why),
            Ok((before, ids)) => match spec_added(before, name, specs.last()) {
                Err(why) => Err(why),
                Ok(after) => Ok((after, ids.push(spec_id(before, specs.last())))),
            },
        }
    }
}

/// How many dependencies the nodes of `specs` have together.
pub open spec fn spec_dependencies(specs: Seq<SpecView>) -> nat
    decreases specs.len(),
{
    if specs.len() == 0 {
        0
    } else {
        spec_dependencies(specs.drop_last()) + specs.last().deps.len()
    }
}

/// The first action of `specs` that is not registered.
pub open spec fn first_unregistered<A>(specs: Seq<SpecView>, actions: Map<Seq<char>, A>) -> Option<Seq<char>>
    decreases specs.len(),
{
    if specs.len() == 0 {
        None
    } else {
        match first_unregistered(specs.drop_last(), actions) {
            Some(a) => Some(a),
            None => if actions.contains_key(specs.last().action) {
                None
            } else {
                Some(specs.last().action)
            },
        }
    }
}

impl<A> DagExecutor<A> {
    /// Each graph is well-formed.
    pub open spec fn wf(&self) -> bool {
        forall|k: Seq<char>| #[trigger] self.prebuilt_dags@.contains_key(k) ==> self.prebuilt_dags@[k].wf()
    }

    /// An executor without workflows.
    pub fn new(config: Option<DagConfig>, registry: ActionRegistry<A>) -> (r: Self)
        ensures
            r.wf(),
            r.config == (if config is Some {
                config->0
            } else {
                default_config()
            }),
            r@ == (ExecutorView {
                actions: registry@,
                graphs: Map::empty(),
                dags: Map::empty(),
                config: r.config,
                counter: 0,
                inputs: Map::empty(),
            }),
            !r.stopped && !r.paused && !r.has_event_sink,
            r.bootstrapped_agents@ == Set::<Seq<char>>::empty(),
            r.branches@ == Map::<Seq<char>, super::branch::BranchState>::empty(),
            r.max_parallel == (if r.config.enable_parallel_execution {
                Some(r.config.max_parallel_nodes)
            } else {
                None
            }),
    {
        let config: DagConfig = match config {
            Some(c) => c,
            None => DagConfig::default(),
        };
        let r = DagExecutor {
            function_registry: registry,
            graphs: StringMap::new(),
            prebuilt_dags: StringMap::new(),
            config,
            stopped: false,
            paused: false,
            bootstrapped_agents: StringSet::new(),
            max_parallel: if config.enable_parallel_execution {
                Some(config.max_parallel_nodes)
            } else {
                None
            },
            branches: BranchRegistry::new(),
            has_event_sink: false,
            node_inputs: Cache::new(),
            node_id_counter: 0,
        };
        proof {
            assert(r@.graphs =~= Map::<Seq<char>, GraphView>::empty());
            assert(r@.dags =~= Map::<Seq<char>, DagView>::empty());
        }
        r
    }

    /// Makes up a node id.
    pub fn gen_node_id(&mut self, prefix: &str) -> (r: String)
        requires
            old(self).wf(),
        ensures
            final(self).wf(),
            r@ == made_up(old(self)@, prefix@),
            final(self)@ == counted(old(self)@),
            final(self).same_flags(*old(self)),
    {
        let (id, next) = make_id(self.node_id_counter, prefix);
        self.node_id_counter = next;
        id
    }

    /// Flags and branches are the same.
    pub open spec fn same_flags(&self, other: Self) -> bool {
        &&& self.stopped == other.stopped
        &&& self.paused == other.paused
        &&& self.bootstrapped_agents == other.bootstrapped_agents
        &&& self.max_parallel == other.max_parallel
        &&& self.branches == other.branches
        &&& self.has_event_sink == other.has_event_sink
    }

    /// Adds a node to a workflow. Its action has to be registered, its id has to be new and
    /// its dependencies have to be nodes; the workflow may not have a cycle.
    pub fn add_node(&mut self, name: &str, node_id: &str, action_name: &str, dependencies: &Vec<String>) -> (r: Result<
        (),
        DagError,
    >)
        requires
            old(self).wf(),
            has_room(old(self)@, name@, 1, dependencies@.len()),
        ensures
            final(self).wf(),
            final(self).same_flags(*old(self)),
            match node_added(old(self)@, name@, node_id@, action_name@, views(dependencies@)) {
                Ok(after) => r is Ok && final(self)@ == after,
                Err(why) => r is Err && reports(r->Err_0, why) && *final(self) == *old(self),
            },
    {
        if !self.function_registry.contains(action_name) {
            return Err(DagError::ActionNotRegistered(owned(action_name)));
        }
        let mut draft: Draft = match self.prebuilt_dags.get(name) {
            Some(d) => Draft::of(d),
            None => {
                return Err(DagError::NodeNotFound(cat2("DAG not found: ", name)));
            },
        };
        let node = make_node(&self.config, node_id, action_name, dependencies, None, None);
        let ghost view = node@;
        proof {
            assert(view =~= added_node(self.config, node_id@, action_name@, views(dependencies@)));
            assert(view.dependencies.len() == node.dependencies@.len());
            assert(views(dependencies@).len() == dependencies@.len());
        }
        match draft.add(node) {
            Ok(()) => {},
            Err(e) => {
                return Err(e);
            },
        }
        proof {
            assert(node_views(draft.added@) =~= seq![view]);
        }
        self.replace(name, draft);
        Ok(())
    }

    /// Puts a workflow in the place of the one that a draft was made of.
    pub(crate) fn replace(&mut self, name: &str, draft: Draft)
        requires
            old(self).wf(),
            draft.wf(),
            old(self).prebuilt_dags@.contains_key(name@),
            draft.base@ == old(self).prebuilt_dags@[name@].nodes@,
        ensures
            final(self).wf(),
            final(self).same_flags(*old(self)),
            final(self)@ == (ExecutorView {
                graphs: defined(old(self)@.graphs, name@, node_views(draft.added@)),
                dags: old(self)@.dags.insert(name@, draft@),
                ..old(self)@
            }),
    {
        let ghost view = draft@;
        let ghost more = node_views(draft.added@);
        let copies = clone_nodes(&draft.added);
        if let Some(dag) = self.prebuilt_dags.remove(name) {
            let dag = draft.finish(dag.nodes);
            self.prebuilt_dags.insert(owned(name), dag);
        }
        proof {
            assert(self@.dags =~= old(self)@.dags.insert(name@, view));
            assert(self.wf()) by {
                assert forall|k: Seq<char>| #[trigger] self.prebuilt_dags@.contains_key(k) implies self.prebuilt_dags@[k].wf() by {
                    if k != name@ {
                        assert(old(self).prebuilt_dags@.contains_key(k));
                    }
                }
            }
        }
        let removed = self.graphs.remove(name);
        if let Some(def) = removed {
            let ghost def_before = def;
            let Graph { nodes, name: gname, description, instructions, tags, author, version, signature, config } = def;
            let mut nodes: Vec<Node> = nodes;
            let mut copies: Vec<Node> = copies;
            nodes.append(&mut copies);
            proof {
                assert(node_views(nodes@) =~= node_views(def_before.nodes@) + more);
            }
            let def = Graph { nodes, name: gname, description, instructions, tags, author, version, signature, config };
            proof {
                assert(def@ =~= (GraphView { nodes: def_before@.nodes + more, ..def_before@ }));
            }
            self.graphs.insert(owned(name), def);
            proof {
                assert(self@.graphs =~= defined(old(self)@.graphs, name@, more));
            }
        } else {
            proof {
                assert(self@.graphs =~= old(self)@.graphs);
            }
        }
    }
}

/// The id that is made up for `prefix`, and the number of the next.
pub(crate) fn make_id(counter: usize, prefix: &str) -> (r: (String, usize))
    ensures
        r.0@ == numbered(prefix@, counter as nat),
        r.1 == (if counter == usize::MAX {
            0
        } else {
            counter + 1
        }),
{
    let next: usize = if counter == usize::MAX {
        0
    } else {
        counter + 1
    };
    (cat3(prefix, "_", dec_usize(counter).as_str()), next)
}

fn clone_nodes(nodes: &Vec<Node>) -> (r: Vec<Node>)
    ensures
        node_views(r@) == node_views(nodes@),
{
    let mut r: Vec<Node> = Vec::new();
    let mut i: usize = 0;
    while i < nodes.len()
        invariant
            i <= nodes@.len(),
            r@.len() == i,
            forall|j: int| 0 <= j < i ==> (#[trigger] r@[j])@ == nodes@[j]@,
        decreases nodes.len() - i,
    {
        r.push(nodes[i].clone());
        i = i + 1;
    }
    proof {
        assert(node_views(r@) =~= node_views(nodes@));
    }
    r
}

/// The node that is added under `id`, with the time and the tries that are given or, where
/// none are, those of the configuration.
pub(crate) fn make_node(
    config: &DagConfig,
    id: &str,
    action: &str,
    deps: &Vec<String>,
    timeout: Option<u64>,
    try_count: Option<u32>,
) -> (r: Node)
    ensures
        r@ == spec_node(
            *config,
            id@,
            SpecView { id: None, action: action@, deps: views(deps@), inputs: Json::Null, timeout, try_count },
        ),
{
    let r = Node {
        id: owned(id),
        dependencies: clone_list(deps),
        action: owned(action),
        inputs: Vec::new(),
        outputs: Vec::new(),
        failure: String::new(),
        onfailure: true,
        description: cat2("Dynamically added node: ", id),
        timeout: match timeout {
            Some(t) => t,
            None => match config.timeout_seconds {
                Some(t) => t,
                None => 3600,
            },
        },
        try_count: match try_count {
            Some(n) => if n > 255 {
                255
            } else {
                n as u8
            },
            None => match config.max_attempts {
                Some(t) => t,
                None => 3,
            },
        },
        instructions: None,
    };
    proof {
        let any = SpecView { id: None, action: action@, deps: views(deps@), inputs: Json::Null, timeout, try_count };
        assert(r@ =~= spec_node(*config, id@, any));
    }
    r
}

/// A workflow that nodes are being added to, while the one that it was made of stays as it is.
pub(crate) struct Draft {
    /// The edges.
    pub graph: Digraph,
    /// The positions of the nodes.
    pub indices: StringMap<usize>,
    /// The nodes that were added.
    pub added: Vec<Node>,
    /// The nodes that were there.
    pub base: Ghost<Seq<Node>>,
}

impl View for Draft {
    type V = DagView;

    open(crate) spec fn view(&self) -> DagView {
        DagView { nodes: node_views(self.nodes()), indices: self.indices@, edges: self.graph.edges() }
    }
}

impl Draft {
    /// All nodes.
    pub(crate) open(crate) spec fn nodes(&self) -> Seq<Node> {
        self.base@ + self.added@
    }

    /// The draft is a well-formed workflow.
    pub(crate) open(crate) spec fn wf(&self) -> bool {
        &&& self.graph.wf()
        &&& self.graph.size() == self.nodes().len()
        &&& self.nodes().len() <= MAX_ELEMENTS + 1
        &&& locates(self.indices@, self.nodes())
        &&& all_dependencies_known(self.nodes(), self.indices@)
        &&& self.graph.edges() == all_edges(self.indices@, self.nodes())
    }

    /// The draft of a workflow to which nothing was added.
    pub(crate) fn of(dag: &Dag) -> (r: Self)
        requires
            dag.wf(),
        ensures
            r.wf(),
            r@ == dag@,
            r.base@ == dag.nodes@,
            r.added@.len() == 0,
    {
        let r = Draft {
            graph: dag.graph.duplicate(),
            indices: copy_map(&dag.indices),
            added: Vec::new(),
            base: Ghost(dag.nodes@),
        };
        proof {
            assert(r.nodes() =~= dag.nodes@);
        }
        r
    }

    /// Adds a node: its id has to be new and its dependencies have to be nodes; the workflow
    /// may not have a cycle.
    pub(crate) fn add(&mut self, node: Node) -> (r: Result<(), DagError>)
        requires
            old(self).wf(),
            old(self)@.nodes.len() <= MAX_ELEMENTS,
            old(self)@.edges.len() + node.dependencies@.len() <= MAX_ELEMENTS + 1,
        ensures
            final(self).wf(),
            final(self).base == old(self).base,
            match dag_grown(old(self)@, node@) {
                Ok(after) => r is Ok && final(self)@ == after && final(self).added@ == old(self).added@.push(node),
                Err(why) => r is Err && reports(r->Err_0, why) && *final(self) == *old(self),
            },
    {
        let ghost deps = views(node.dependencies@);
        let ghost before = self.nodes();
        let ghost indices = self.indices@;
        let ghost edges = self.graph.edges();
        if self.indices.contains_key(node.id.as_str()) {
            return Err(DagError::NodeAlreadyExists(node.id.clone()));
        }
        if let Some(j) = find_missing(&node.dependencies, &self.indices) {
            return Err(DagError::DependencyNotFound(node.dependencies[j].clone()));
        }
        proof {
            lemma_all_present(deps, indices);
        }
        let mut graph = self.graph.duplicate();
        let position: usize = graph.add_node();
        let ghost all = dep_edges(indices, deps, position as nat);
        let mut j: usize = 0;
        proof {
            assert(all.take(0) =~= Seq::<(nat, nat)>::empty());
            assert(graph.edges() =~= edges + all.take(0));
        }
        while j < node.dependencies.len()
            invariant
                j <= node.dependencies.len(),
                deps == views(node.dependencies@),
                *self == *old(self),
                self.wf(),
                before == self.nodes(),
                indices == self.indices@,
                edges == self.graph.edges(),
                graph.wf(),
                position == before.len(),
                graph.size() == before.len() + 1,
                edges.len() + node.dependencies@.len() <= MAX_ELEMENTS + 1,
                all == dep_edges(indices, deps, position as nat),
                graph.edges() == edges + all.take(j as int),
                forall|i: int| 0 <= i < deps.len() ==> indices.contains_key(#[trigger] deps[i]),
            decreases node.dependencies.len() - j,
        {
            proof {
                assert(indices.contains_key(deps[j as int]));
                assert(deps[j as int] == node.dependencies@[j as int]@);
            }
            let source: usize = match self.indices.get(node.dependencies[j].as_str()) {
                Some(s) => *s,
                None => 0,
            };
            graph.add_edge(source, position);
            proof {
                assert(all.take(j + 1) =~= all.take(j as int).push(all[j as int]));
                assert(graph.edges() =~= edges + all.take(j + 1));
            }
            j = j + 1;
        }
        proof {
            assert(all.take(j as int) =~= all);
            assert(grown(self@, node@).edges == graph.edges());
        }
        match validate_dag_structure(&graph) {
            Ok(()) => {},
            Err(e) => {
                return Err(DagError::InvalidGraph(e));
            },
        }
        proof {
            lemma_locates_push(indices, before, node);
            assert forall|b: int| 0 <= b < node.dependencies@.len() implies indices.contains_key(
                #[trigger] node.dependencies@[b]@,
            ) && deps[b] == node.dependencies@[b]@ by {
                assert(views(node.dependencies@)[b] == deps[b]);
                assert(indices.contains_key(deps[b]));
            }
            lemma_edges_push(indices, before, node);
            assert(edges_into(indices, node.dependencies@, position as nat) =~= all);
        }
        self.indices.insert(node.id.clone(), position);
        self.graph = graph;
        self.added.push(node);
        proof {
            assert(self.nodes() =~= before.push(node));
            assert(self@ =~= grown(old(self)@, node@));
        }
        Ok(())
    }

    /// The workflow, with `nodes` as the nodes that were there.
    pub(crate) fn finish(self, nodes: Vec<Node>) -> (r: Dag)
        requires
            self.wf(),
            self.base@ == nodes@,
        ensures
            r.wf(),
            r@ == self@,
    {
        let ghost all = self.nodes();
        let Draft { graph, indices, added, base } = self;
        let mut nodes: Vec<Node> = nodes;
        let mut added: Vec<Node> = added;
        nodes.append(&mut added);
        proof {
            assert(nodes@ =~= all);
        }
        Dag { graph, nodes, indices }
    }
}

/// The position of the first of `deps` that is not known.
fn find_missing(deps: &Vec<String>, known: &StringMap<usize>) -> (r: Option<usize>)
    ensures
        r is Some <==> first_missing(views(deps@), known@) is Some,
        r matches Some(i) ==> i < deps@.len() && first_missing(views(deps@), known@) == Some(deps@[i as int]@),
{
    let ghost all = views(deps@);
    let mut j: usize = 0;
    proof {
        assert(all.take(0) =~= Seq::<Seq<char>>::empty());
    }
    while j < deps.len()
        invariant
            j <= deps.len(),
            all == views(deps@),
            first_missing(all.take(j as int), known@) is None,
        decreases deps.len() - j,
    {
        proof {
            assert(all.take(j + 1).drop_last() =~= all.take(j as int));
            assert(all.take(j + 1).last() == deps@[j as int]@);
        }
        if !known.contains_key(deps[j].as_str()) {
            proof {
                lemma_first_missing(all, known@, j + 1);
            }
            return Some(j);
        }
        j = j + 1;
    }
    proof {
        assert(all.take(j as int) =~= all);
    }
    None
}

proof fn lemma_first_missing(deps: Seq<Seq<char>>, known: Map<Seq<char>, usize>, i: int)
    requires
        0 <= i <= deps.len(),
        first_missing(deps.take(i), known) is Some,
    ensures
        first_missing(deps, known) == first_missing(deps.take(i), known),
    decreases deps.len() - i,
{
    if i < deps.len() {
        assert(deps.take(i + 1).drop_last() =~= deps.take(i));
        lemma_first_missing(deps, known, i + 1);
    } else {
        assert(deps.take(i) =~= deps);
    }
}

/// Where nothing is missing, everything is known.
pub proof fn lemma_all_present(deps: Seq<Seq<char>>, known: Map<Seq<char>, usize>)
    requires
        first_missing(deps, known) is None,
    ensures
        forall|i: int| 0 <= i < deps.len() ==> known.contains_key(#[trigger] deps[i]),
    decreases deps.len(),
{
    if deps.len() > 0 {
        lemma_all_present(deps.drop_last(), known);
        assert forall|i: int| 0 <= i < deps.len() implies known.contains_key(#[trigger] deps[i]) by {
            if i < deps.len() - 1 {
                assert(deps.drop_last()[i] == deps[i]);
            }
        }
    }
}

/// The name under which the tree and the cache of a workflow are kept.
pub fn normalize_dag_name(dag_id: &str) -> (r: String)
    ensures
        r@ == lowercased(dag_id@),
{
    to_lowercase(dag_id)
}

proof fn lemma_missing_at(deps: Seq<Seq<char>>, known: Map<Seq<char>, usize>, i: int)
    requires
        0 <= i < deps.len(),
        !known.contains_key(deps[i]),
        forall|j: int| 0 <= j < i ==> known.contains_key(#[trigger] deps[j]),
    ensures
        first_missing(deps, known) == Some(deps[i]),
{
    lemma_none_missing(deps.take(i), known);
    assert(deps.take(i + 1).drop_last() =~= deps.take(i));
    assert(deps.take(i + 1).last() == deps[i]);
    lemma_first_missing(deps, known, i + 1);
}

proof fn lemma_none_missing(deps: Seq<Seq<char>>, known: Map<Seq<char>, usize>)
    requires
        forall|j: int| 0 <= j < deps.len() ==> known.contains_key(#[trigger] deps[j]),
    ensures
        first_missing(deps, known) is None,
    decreases deps.len(),
{
    if deps.len() > 0 {
        let front = deps.drop_last();
        assert forall|j: int| 0 <= j < front.len() implies known.contains_key(#[trigger] front[j]) by {
            assert(front[j] == deps[j]);
        }
        lemma_none_missing(front, known);
        assert(known.contains_key(deps[deps.len() - 1]));
    }
}

/// Why a node is refused: its action is not registered, there is no such workflow, the id is
/// taken, or a dependency is no node, in this order; then nothing changes.
pub proof fn refused_node_changes_nothing<A>(
    e: &mut DagExecutor<A>,
    name: &str,
    id: &str,
    action: &str,
    deps: &Vec<String>,
    r: Result<(), DagError>,
    i: int,
)
    requires
        call_ensures(DagExecutor::<A>::add_node, (e, name, id, action, deps), r),
    ensures
        r is Err ==> *final(e) == *old(e),
        !old(e)@.actions.contains_key(action@) ==> (r matches Err(DagError::ActionNotRegistered(a)) && a@ == action@),
        old(e)@.actions.contains_key(action@) && !old(e)@.dags.contains_key(name@) ==> (r matches Err(DagError::NodeNotFound(n))
            && n@ == "DAG not found: "@ + name@),
        old(e)@.actions.contains_key(action@) && old(e)@.dags.contains_key(name@) && old(e)@.dags[name@].indices.contains_key(id@)
            ==> (r matches Err(DagError::NodeAlreadyExists(n)) && n@ == id@),
        old(e)@.actions.contains_key(action@) && old(e)@.dags.contains_key(name@) && !old(e)@.dags[name@].indices.contains_key(id@)
            && 0 <= i < deps@.len() && !old(e)@.dags[name@].indices.contains_key(deps@[i]@) && (forall|j: int|
            0 <= j < i ==> old(e)@.dags[name@].indices.contains_key((#[trigger] deps@[j])@)) ==> (r matches Err(
            DagError::DependencyNotFound(d),
        ) && d@ == deps@[i]@),
        r is Ok ==> old(e)@.actions.contains_key(action@) && old(e)@.dags.contains_key(name@) && !old(e)@.dags[name@].indices.contains_key(id@) && (0 <= i < deps@.len() ==> old(e)@.dags[name@].indices.contains_key(deps@[i]@)),
{
    let known = old(e)@.dags[name@].indices;
    let d = views(deps@);
    if old(e)@.actions.contains_key(action@) && old(e)@.dags.contains_key(name@) && !known.contains_key(id@) && 0 <= i
        < deps@.len() && !known.contains_key(deps@[i]@) && (forall|j: int|
        0 <= j < i ==> known.contains_key((#[trigger] deps@[j])@)) {
        assert forall|j: int| 0 <= j < i implies known.contains_key(#[trigger] d[j]) by {
            assert(known.contains_key(deps@[j]@));
        }
        lemma_missing_at(d, known, i);
    }
    if r is Ok && 0 <= i < deps@.len() {
        lemma_all_present(d, known);
        assert(known.contains_key(d[i]));
    }
}

/// Whether a workflow that was `before` is `after` with one more node, last: the node has this
/// id, action and dependencies and these limits, edges lead to it from its dependencies, and all
/// else is as it was.
pub open spec fn has_one_more(
    before: DagView,
    after: DagView,
    id: Seq<char>,
    action: Seq<char>,
    deps: Seq<Seq<char>>,
    timeout: u64,
    try_count: u8,
) -> bool {
    let n = before.nodes.len() as int;
    let m = before.edges.len() as int;
    &&& after.nodes.len() == n + 1
    &&& forall|k: int| 0 <= k < n ==> (#[trigger] after.nodes[k]) == before.nodes[k]
    &&& after.nodes[n].id == id && after.nodes[n].action == action && after.nodes[n].dependencies == deps
    &&& after.nodes[n].timeout == timeout && after.nodes[n].try_count == try_count && after.nodes[n].onfailure
    &&& after.nodes[n].inputs.len() == 0 && after.nodes[n].outputs.len() == 0
    &&& after.indices.contains_key(id) && (n <= usize::MAX ==> after.indices[id] == n)
    &&& forall|k: Seq<char>|
        k != id ==> (#[trigger] after.indices.contains_key(k) <==> before.indices.contains_key(k)) && after.indices[k]
            == before.indices[k]
    &&& after.edges.len() == m + deps.len()
    &&& forall|k: int| 0 <= k < m ==> (#[trigger] after.edges[k]) == before.edges[k]
    &&& forall|j: int| 0 <= j < deps.len() ==> after.edges[m + j] == (before.indices[#[trigger] deps[j]] as nat, n as nat)
}

/// A node that is added stands last in its workflow and in the definition, with the limits that
/// the executor's settings give, behind its dependencies; other workflows stay.
pub proof fn added_node_stands_last<A>(
    e: &mut DagExecutor<A>,
    name: &str,
    id: &str,
    action: &str,
    deps: &Vec<String>,
    r: Result<(), DagError>,
)
    requires
        call_ensures(DagExecutor::<A>::add_node, (e, name, id, action, deps), r),
        r is Ok,
    ensures
        final(e)@.dags.contains_key(name@),
        has_one_more(
            old(e)@.dags[name@],
            final(e)@.dags[name@],
            id@,
            action@,
            views(deps@),
            match old(e).config.timeout_seconds {
                Some(t) => t,
                None => 3600,
            },
            match old(e).config.max_attempts {
                Some(n) => n,
                None => 3,
            },
        ),
        old(e)@.graphs.contains_key(name@) ==> final(e)@.graphs[name@].nodes.len() == old(e)@.graphs[name@].nodes.len() + 1
            && final(e)@.graphs[name@].nodes.last() == final(e)@.dags[name@].nodes.last(),
        forall|k: Seq<char>|
            k != name@ ==> (#[trigger] final(e)@.dags.contains_key(k) <==> old(e)@.dags.contains_key(k)) && final(e)@.dags[k]
                == old(e)@.dags[k],
        final(e)@.inputs == old(e)@.inputs && final(e)@.counter == old(e)@.counter && final(e).config == old(e).config,
{
}

/// Whether the node `node` is what `spec` asks for, under the id `id`: its time and its tries are those of the spec,
/// or else those of the settings.
pub open spec fn answers(node: NodeView, id: Seq<char>, spec: SpecView, config: DagConfig) -> bool {
    &&& node.id == id
    &&& node.action == spec.action
    &&& node.dependencies == spec.deps
    &&& node.timeout == (match spec.timeout {
        Some(t) => t,
        None => match config.timeout_seconds {
            Some(t) => t,
            None => 3600,
        },
    })
    &&& spec.try_count is Some && spec.try_count->0 <= 255 ==> node.try_count == spec.try_count->0
    &&& spec.try_count is Some && spec.try_count->0 > 255 ==> node.try_count == 255
    &&& spec.try_count is None ==> node.try_count == (match config.max_attempts {
        Some(n) => n,
        None => 3,
    })
    &&& node.onfailure
}

/// What was added for each spec.
pub open spec fn each_is_added<A>(before: ExecutorView<A>, after: ExecutorView<A>, name: Seq<char>, specs: Seq<SpecView>, ids: Seq<Seq<char>>) -> bool {
    let n = before.dags[name].nodes.len() as int;
    &&& after.config == before.config
    &&& ids.len() == specs.len()
    &&& specs.len() > 0 ==> before.dags.contains_key(name) && after.dags.contains_key(name)
    &&& after.dags[name].nodes.len() == n + specs.len()
    &&& forall|k: int| 0 <= k < n ==> (#[trigger] after.dags[name].nodes[k]) == before.dags[name].nodes[k]
    &&& forall|k: int|
        0 <= k < specs.len() ==> answers(
            after.dags[name].nodes[n + k],
            ids[k],
            #[trigger] specs[k],
            before.config,
        )
    &&& forall|k: int|
        0 <= k < specs.len() ==> after.dags[name].indices.contains_key(ids[k]) && ((#[trigger] specs[k]).id matches Some(id)
            ==> ids[k] == id)
    &&& forall|k: int|
        0 <= k < specs.len() && !((#[trigger] specs[k]).inputs is Null) ==> after.inputs.contains_key(name)
            && after.inputs[name].contains_key(ids[k]) && after.inputs[name][ids[k]] == specs[k].inputs
    &&& forall|k: Seq<char>|
        k != name ==> (#[trigger] after.dags.contains_key(k) <==> before.dags.contains_key(k)) && after.dags[k] == before.dags[k]
}

/// Nodes that are added one after the other are each there as asked for.
#[verifier::spinoff_prover]
pub proof fn lemma_each_is_added<A>(s: ExecutorView<A>, name: Seq<char>, specs: Seq<SpecView>)
    requires
        specs_added(s, name, specs) is Ok,
    ensures
        each_is_added(s, specs_added(s, name, specs)->Ok_0.0, name, specs, specs_added(s, name, specs)->Ok_0.1),
    decreases specs.len(),
{
    if specs.len() > 0 {
        lemma_each_is_added(s, name, specs.drop_last());
        let (mid, before_ids) = specs_added(s, name, specs.drop_last())->Ok_0;
        let (after, ids) = specs_added(s, name, specs)->Ok_0;
        let spec = specs.last();
        let id = spec_id(mid, spec);
        let node = spec_node(mid.config, id, spec);
        let n = s.dags[name].nodes.len() as int;
        assert(after.dags[name].nodes == mid.dags[name].nodes.push(node));
        assert(!mid.dags[name].indices.contains_key(id));
        assert forall|k: int| 0 <= k < n implies (#[trigger] after.dags[name].nodes[k]) == s.dags[name].nodes[k] by {
            assert(mid.dags[name].nodes[k] == s.dags[name].nodes[k]);
        }
        assert forall|k: int| 0 <= k < specs.len() implies answers(
            after.dags[name].nodes[n + k],
            ids[k],
            #[trigger] specs[k],
            s.config,
        ) && after.dags[name].indices.contains_key(ids[k]) && (specs[k].id matches Some(x) ==> ids[k] == x) && (!(
        specs[k].inputs is Null) ==> after.inputs.contains_key(name) && after.inputs[name].contains_key(ids[k])
            && after.inputs[name][ids[k]] == specs[k].inputs) by {
            if k < specs.len() - 1 {
                assert(specs.drop_last()[k] == specs[k]);
                assert(ids[k] == before_ids[k]);
                assert(mid.dags[name].indices.contains_key(before_ids[k]));
                assert(after.dags[name].nodes[n + k] == mid.dags[name].nodes[n + k]);
            } else {
                assert(ids[k] == id);
                assert(after.dags[name].nodes[n + k] == node);
            }
        }
        assert(forall|k: int|
            0 <= k < specs.len() ==> answers(
                after.dags[name].nodes[n + k],
                ids[k],
                #[trigger] specs[k],
                s.config,
            ));
        assert(forall|k: int|
            0 <= k < specs.len() ==> after.dags[name].indices.contains_key(ids[k]) && ((#[trigger] specs[k]).id matches Some(x)
                ==> ids[k] == x));
        assert(forall|k: int|
            0 <= k < specs.len() && !((#[trigger] specs[k]).inputs is Null) ==> after.inputs.contains_key(name)
                && after.inputs[name].contains_key(ids[k]) && after.inputs[name][ids[k]] == specs[k].inputs);
        assert(after.config == s.config);
        assert(ids.len() == specs.len());
        assert(s.dags.contains_key(name) && after.dags.contains_key(name));
        assert(after.dags[name].nodes.len() == n + specs.len());
        assert forall|k: Seq<char>| k != name implies (#[trigger] after.dags.contains_key(k) <==> s.dags.contains_key(k))
            && after.dags[k] == s.dags[k] by {
            assert(mid.dags.contains_key(k) <==> s.dags.contains_key(k));
        }
    }
}

/// A new executor has no workflows, runs, and takes the settings that it is given, or the usual
/// ones; as many nodes run side by side as these allow.
pub proof fn executor_starts_empty<A>(config: Option<DagConfig>, registry: ActionRegistry<A>, usual: DagConfig, r: DagExecutor<A>)
    requires
        call_ensures(DagExecutor::<A>::new, (config, registry), r),
        call_ensures(DagConfig::default, (), usual),
    ensures
        config matches Some(c) ==> r.config == c,
        config is None ==> r.config.max_attempts == usual.max_attempts && r.config.timeout_seconds == usual.timeout_seconds
            && r.config.on_failure == usual.on_failure && r.config.max_parallel_nodes == usual.max_parallel_nodes
            && r.config.max_iterations == usual.max_iterations && r.config.enable_parallel_execution
            == usual.enable_parallel_execution,
        r@.graphs == Map::<Seq<char>, GraphView>::empty() && r@.counter == 0 && r@.actions == registry@,
        !r.stopped && !r.paused && !r.has_event_sink,
        r.config.enable_parallel_execution ==> r.max_parallel == Some(r.config.max_parallel_nodes),
        !r.config.enable_parallel_execution ==> r.max_parallel is None,
{
}

/// A made-up name is the prefix with a number behind it, and the next has the next number.
pub proof fn made_up_names_are_numbered<A>(e: &mut DagExecutor<A>, prefix: &str, r: String)
    requires
        call_ensures(DagExecutor::<A>::gen_node_id, (e, prefix), r),
    ensures
        r@ == prefix@ + "_"@ + crate::text::decimal(old(e)@.counter),
        old(e)@.counter < usize::MAX ==> final(e)@.counter == old(e)@.counter + 1,
        final(e)@.graphs == old(e)@.graphs && final(e)@.dags == old(e)@.dags && final(e)@.actions == old(e)@.actions,
{
}

} // verus!
