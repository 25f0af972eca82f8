//! Executing a workflow whose nodes are tried again, timed and counted.

use super::dag_builder::{
    all_present, chained_at, dependencies_present, depends, first_missing_node, has_cycle, is_chain, BackoffStrategy,
    DagExecutionMetrics, DagExecutionState, ErrorHandling, NodeDefinition, NodeExecutionState, NodeStatus, RetryPolicy,
};
use super::run::{fed_from_within, has_source_in, lemma_fed_path, lemma_long_path_closes};
use crate::double::Double;
use crate::duration::nanos;
use crate::errors::DaggerError;
use crate::graph::{cyclic, is_path, joined_at, Digraph, MAX_ELEMENTS};
use crate::string_map::{as_map, distinct_keys, has_key, key_index, lemma_entry, StringMap, StringSet};
use crate::text::{cat2, cat5, contains, decimal, decimal_injective, holds_text, owned, parse_dec, views};
use crate::value::{member, members_json, object, string, Json, Value};
use std::time::Duration;
use vstd::prelude::*;

verus! {

/// The edges into the node at `i`, from each of its dependencies.
pub open spec fn edges_to(pairs: Seq<(String, NodeDefinition)>, i: int) -> Seq<(nat, nat)> {
    Seq::new(
        pairs[i].1.dependencies@.len(),
        |j: int| (key_index(pairs, pairs[i].1.dependencies@[j]@) as nat, i as nat),
    )
}

/// The edges into the first `n` nodes.
pub open spec fn graph_edges(pairs: Seq<(String, NodeDefinition)>, n: int) -> Seq<(nat, nat)>
    decreases n,
{
    if n <= 0 {
        Seq::empty()
    } else {
        graph_edges(pairs, n - 1) + edges_to(pairs, n - 1)
    }
}

/// How many dependencies the first `n` nodes have together.
pub open spec fn dependency_total(pairs: Seq<(String, NodeDefinition)>, n: int) -> nat
    decreases n,
{
    if n <= 0 {
        0
    } else {
        dependency_total(pairs, n - 1) + pairs[n - 1].1.dependencies@.len()
    }
}

proof fn lemma_edge_count(pairs: Seq<(String, NodeDefinition)>, n: int)
    requires
        0 <= n <= pairs.len(),
    ensures
        graph_edges(pairs, n).len() == dependency_total(pairs, n),
    decreases n,
{
    if n > 0 {
        lemma_edge_count(pairs, n - 1);
    }
}

proof fn lemma_total_grows(pairs: Seq<(String, NodeDefinition)>, m: int, n: int)
    requires
        0 <= m <= n <= pairs.len(),
    ensures
        dependency_total(pairs, m) <= dependency_total(pairs, n),
    decreases n,
{
    if m < n {
        lemma_total_grows(pairs, m, n - 1);
    }
}

/// An edge of the graph comes from a dependency.
proof fn lemma_edge_is_dependency(pairs: Seq<(String, NodeDefinition)>, n: int, e: (nat, nat)) -> (j: int)
    requires
        0 <= n <= pairs.len(),
        distinct_keys(pairs),
        all_present(pairs, as_map(pairs)),
        graph_edges(pairs, n).contains(e),
    ensures
        e.1 < n,
        e.0 < pairs.len(),
        0 <= j < pairs[e.1 as int].1.dependencies@.len(),
        pairs[e.1 as int].1.dependencies@[j]@ == pairs[e.0 as int].0@,
    decreases n,
{
    let all = graph_edges(pairs, n);
    let k = choose|k: int| 0 <= k < all.len() && all[k] == e;
    let before = graph_edges(pairs, n - 1);
    if k < before.len() {
        assert(before[k] == e);
        lemma_edge_is_dependency(pairs, n - 1, e)
    } else {
        let j = k - before.len();
        let dep = pairs[n - 1].1.dependencies@[j]@;
        assert(dependencies_present(pairs[n - 1].1, as_map(pairs)));
        assert(as_map(pairs).contains_key(dep));
        assert(has_key(pairs, dep));
        j
    }
}

/// A dependency gives an edge of the graph.
proof fn lemma_dependency_is_edge(pairs: Seq<(String, NodeDefinition)>, n: int, a: int, b: int, j: int)
    requires
        0 <= b < n <= pairs.len(),
        0 <= a < pairs.len(),
        distinct_keys(pairs),
        0 <= j < pairs[b].1.dependencies@.len(),
        pairs[b].1.dependencies@[j]@ == pairs[a].0@,
    ensures
        graph_edges(pairs, n).contains((a as nat, b as nat)),
    decreases n,
{
    let before = graph_edges(pairs, n - 1);
    let last = edges_to(pairs, n - 1);
    let all = graph_edges(pairs, n);
    if b == n - 1 {
        let dep = pairs[b].1.dependencies@[j]@;
        assert(has_key(pairs, dep));
        let k = key_index(pairs, dep);
        assert(k == a) by {
            if k < a {
                assert(pairs[k].0@ != pairs[a].0@);
            } else if a < k {
                assert(pairs[a].0@ != pairs[k].0@);
            }
        }
        assert(last[j] == (a as nat, b as nat));
        assert(all[before.len() + j] == (a as nat, b as nat));
    } else {
        lemma_dependency_is_edge(pairs, n - 1, a, b, j);
        let k = choose|k: int| 0 <= k < before.len() && before[k] == (a as nat, b as nat);
        assert(all[k] == (a as nat, b as nat));
    }
}

/// The graph has a cycle where the dependencies have one.
proof fn lemma_cycles_agree(pairs: Seq<(String, NodeDefinition)>)
    requires
        distinct_keys(pairs),
        all_present(pairs, as_map(pairs)),
    ensures
        cyclic(graph_edges(pairs, pairs.len() as int)) <==> has_cycle(as_map(pairs)),
{
    let n = pairs.len() as int;
    let edges = graph_edges(pairs, n);
    let m = as_map(pairs);
    if cyclic(edges) {
        let path = choose|path: Seq<nat>| #[trigger] is_path(edges, path) && path.len() >= 2 && path[0] == path.last();
        let names = Seq::new(path.len(), |i: int| pairs[path[path.len() - 1 - i] as int].0@);
        assert forall|i: int| 0 <= i < names.len() - 1 implies #[trigger] chained_at(m, names, i) by {
            let k = path.len() - 2 - i;
            assert(joined_at(edges, path, k));
            let e = (path[k], path[k + 1]);
            let j = lemma_edge_is_dependency(pairs, n, e);
            lemma_entry(pairs, e.1 as int);
            assert(holds_text(pairs[e.1 as int].1.dependencies@, pairs[e.0 as int].0@)) by {
                assert(pairs[e.1 as int].1.dependencies@[j]@ == pairs[e.0 as int].0@);
            }
            assert(depends(m, names[i], names[i + 1]));
        }
        assert(is_chain(m, names));
        assert(names[0] == names.last());
        assert(has_cycle(m));
    }
    if has_cycle(m) {
        let names = choose|path: Seq<Seq<char>>| #[trigger] is_chain(m, path) && path.len() >= 2 && path[0] == path.last();
        assert forall|i: int| 0 <= i < names.len() implies has_key(pairs, #[trigger] names[i]) by {
            if i < names.len() - 1 {
                assert(chained_at(m, names, i));
            } else {
                assert(chained_at(m, names, 0));
            }
        }
        let path = Seq::new(names.len(), |i: int| key_index(pairs, names[names.len() - 1 - i]) as nat);
        assert forall|i: int| 0 <= i < path.len() - 1 implies #[trigger] joined_at(edges, path, i) by {
            let k = names.len() - 2 - i;
            assert(chained_at(m, names, k));
            assert(has_key(pairs, names[k]));
            assert(has_key(pairs, names[k + 1]));
            let b = key_index(pairs, names[k]);
            let a = key_index(pairs, names[k + 1]);
            lemma_entry(pairs, b);
            let deps = pairs[b].1.dependencies@;
            assert(holds_text(deps, names[k + 1]));
            let j = choose|j: int| 0 <= j < deps.len() && (#[trigger] deps[j])@ == names[k + 1];
            lemma_dependency_is_edge(pairs, n, a, b, j);
            assert(path[i] == a);
            assert(path[i + 1] == b);
        }
        assert(is_path(edges, path));
        assert(path[0] == path.last());
        assert(cyclic(edges));
    }
}

/// What is said of a dependency that is no node.
pub open spec fn missing_text(id: Seq<char>, dependency: Seq<char>) -> Seq<char> {
    "Node '"@ + id + "' depends on non-existent node '"@ + dependency + "'"@
}

fn place_nodes(nodes: &StringMap<NodeDefinition>, graph: &mut Digraph) -> (r: StringMap<usize>)
    requires
        old(graph).wf(),
        old(graph).size() == 0,
        old(graph).edges().len() == 0,
        nodes.pairs().len() <= MAX_ELEMENTS,
    ensures
        final(graph).wf(),
        final(graph).size() == nodes.pairs().len(),
        final(graph).edges().len() == 0,
        forall|k: Seq<char>| #[trigger] r@.contains_key(k) <==> has_key(nodes.pairs(), k),
        forall|k: Seq<char>| #[trigger] r@.contains_key(k) ==> r@[k] == key_index(nodes.pairs(), k),
{
    let mut places: StringMap<usize> = StringMap::new();
    let n: usize = nodes.len();
    let ghost pairs = nodes.pairs();
    proof {
        use_type_invariant(nodes);
    }
    let mut i: usize = 0;
    while i < n
        invariant
            i <= n,
            n == pairs.len(),
            n <= MAX_ELEMENTS,
            pairs == nodes.pairs(),
            distinct_keys(pairs),
            graph.wf(),
            graph.size() == i,
            graph.edges().len() == 0,
            forall|k: Seq<char>| #[trigger]
                places@.contains_key(k) <==> exists|a: int| 0 <= a < i && (#[trigger] pairs[a]).0@ == k,
            forall|a: int| 0 <= a < i ==> places@[(#[trigger] pairs[a]).0@] == a,
        decreases n - i,
    {
        let position: usize = graph.add_node();
        let ghost before = places@;
        places.insert(nodes.key_at(i).clone(), position);
        proof {
            assert forall|a: int| 0 <= a < i + 1 implies places@[(#[trigger] pairs[a]).0@] == a by {
                if a < i {
                    assert(pairs[a].0@ != pairs[i as int].0@);
                }
            }
            assert forall|k: Seq<char>| #[trigger]
                places@.contains_key(k) <==> exists|a: int| 0 <= a < i + 1 && (#[trigger] pairs[a]).0@ == k by {
                if places@.contains_key(k) {
                    if k == pairs[i as int].0@ {
                        assert(pairs[i as int].0@ == k);
                    } else {
                        assert(before.contains_key(k));
                        let a = choose|a: int| 0 <= a < i && (#[trigger] pairs[a]).0@ == k;
                        assert(pairs[a].0@ == k);
                    }
                }
                if exists|a: int| 0 <= a < i + 1 && (#[trigger] pairs[a]).0@ == k {
                    let a = choose|a: int| 0 <= a < i + 1 && (#[trigger] pairs[a]).0@ == k;
                    if a < i {
                        assert(before.contains_key(k));
                    }
                }
            }
        }
        i = i + 1;
    }
    proof {
        assert forall|k: Seq<char>| #[trigger] places@.contains_key(k) implies places@[k] == key_index(pairs, k) by {
            assert(has_key(pairs, k));
            let a = key_index(pairs, k);
            assert(places@[pairs[a].0@] == a);
        }
    }
    places
}

/// The graph of a workflow: a node for each definition, in their order, and an edge from each
/// dependency to the node that needs it.
pub fn build_graph(nodes: &StringMap<NodeDefinition>) -> (r: Result<Digraph, DaggerError>)
    requires
        nodes.pairs().len() <= MAX_ELEMENTS,
        dependency_total(nodes.pairs(), nodes.pairs().len() as int) <= MAX_ELEMENTS,
    ensures
        r is Ok <==> all_present(nodes.pairs(), nodes@) && !has_cycle(nodes@),
        r matches Ok(g) ==> {
            &&& g.wf()
            &&& g.size() == nodes.pairs().len()
            &&& g.edges() == graph_edges(nodes.pairs(), nodes.pairs().len() as int)
        },
        r matches Err(e) ==> if all_present(nodes.pairs(), nodes@) {
            e.is_validation("DAG contains cycles"@)
        } else {
            exists|i: int, j: int| #[trigger]
                first_missing_node(nodes.pairs(), nodes@, i, j) && e.is_validation(
                    missing_text(nodes.pairs()[i].0@, nodes.pairs()[i].1.dependencies@[j]@),
                )
        },
{
    let mut graph = Digraph::new();
    let places = place_nodes(nodes, &mut graph);
    let n: usize = nodes.len();
    let ghost pairs = nodes.pairs();
    proof {
        use_type_invariant(nodes);
        assert(graph.edges() =~= graph_edges(pairs, 0));
    }
    let mut i: usize = 0;
    while i < n
        invariant
            i <= n,
            n == pairs.len(),
            n <= MAX_ELEMENTS,
            pairs == nodes.pairs(),
            distinct_keys(pairs),
            graph.wf(),
            graph.size() == n,
            graph.edges() == graph_edges(pairs, i as int),
            dependency_total(pairs, n as int) <= MAX_ELEMENTS,
            forall|k: Seq<char>| #[trigger] places@.contains_key(k) <==> has_key(pairs, k),
            forall|k: Seq<char>| #[trigger] places@.contains_key(k) ==> places@[k] == key_index(pairs, k),
            forall|a: int| 0 <= a < i ==> dependencies_present((#[trigger] pairs[a]).1, nodes@),
        decreases n - i,
    {
        let node = nodes.value_at(i);
        let ghost base = graph.edges();
        let ghost own = edges_to(pairs, i as int);
        let mut j: usize = 0;
        proof {
            lemma_edge_count(pairs, i as int);
            lemma_total_grows(pairs, i + 1, n as int);
            assert(base + own.take(0) =~= base);
        }
        while j < node.dependencies.len()
            invariant
                i < n,
                n == pairs.len(),
                n <= MAX_ELEMENTS,
                pairs == nodes.pairs(),
                *node == pairs[i as int].1,
                j <= node.dependencies@.len(),
                own == edges_to(pairs, i as int),
                base.len() + node.dependencies@.len() <= MAX_ELEMENTS,
                graph.wf(),
                graph.size() == n,
                graph.edges() == base + own.take(j as int),
                forall|k: Seq<char>| #[trigger] places@.contains_key(k) <==> has_key(pairs, k),
                forall|k: Seq<char>| #[trigger] places@.contains_key(k) ==> places@[k] == key_index(pairs, k),
                forall|a: int| 0 <= a < i ==> dependencies_present((#[trigger] pairs[a]).1, nodes@),
                forall|b: int| 0 <= b < j ==> nodes@.contains_key(#[trigger] node.dependencies@[b]@),
            decreases node.dependencies.len() - j,
        {
            let dep = node.dependencies[j].as_str();
            match places.get(dep) {
                Some(at) => {
                    let source: usize = *at;
                    proof {
                        assert(has_key(pairs, dep@));
                        assert(own.take(j + 1) =~= own.take(j as int).push((source as nat, i as nat)));
                    }
                    graph.add_edge(source, i);
                    proof {
                        assert(graph.edges() =~= base + own.take(j + 1));
                    }
                },
                None => {
                    proof {
                        assert(first_missing_node(pairs, nodes@, i as int, j as int));
                        assert(!dependencies_present(pairs[i as int].1, nodes@)) by {
                            assert(!nodes@.contains_key(pairs[i as int].1.dependencies@[j as int]@));
                        }
                    }
                    let id = nodes.key_at(i);
                    let text = cat5("Node '", id.as_str(), "' depends on non-existent node '", dep, "'");
                    return Err(DaggerError::validation(text.as_str()));
                },
            }
            j = j + 1;
        }
        proof {
            assert(own.take(j as int) =~= own);
        }
        i = i + 1;
    }
    proof {
        lemma_cycles_agree(pairs);
    }
    if graph.is_cyclic() {
        return Err(DaggerError::validation("DAG contains cycles"));
    }
    Ok(graph)
}

/// Whether everything that a node depends on is completed.
pub open spec fn released(node: NodeDefinition, completed: Set<Seq<char>>) -> bool {
    forall|j: int| 0 <= j < node.dependencies@.len() ==> completed.contains(#[trigger] node.dependencies@[j]@)
}

/// Whether the node at `i` can be started.
pub open spec fn startable(
    pairs: Seq<(String, NodeDefinition)>,
    completed: Set<Seq<char>>,
    executing: Set<Seq<char>>,
    i: int,
) -> bool {
    !completed.contains(pairs[i].0@) && !executing.contains(pairs[i].0@) && released(pairs[i].1, completed)
}

/// Those of the first `n` nodes that can be started.
pub open spec fn to_start(
    pairs: Seq<(String, NodeDefinition)>,
    completed: Set<Seq<char>>,
    executing: Set<Seq<char>>,
    n: int,
) -> Seq<Seq<char>>
    decreases n,
{
    if n <= 0 {
        Seq::empty()
    } else if startable(pairs, completed, executing, n - 1) {
        to_start(pairs, completed, executing, n - 1).push(pairs[n - 1].0@)
    } else {
        to_start(pairs, completed, executing, n - 1)
    }
}

fn is_released(node: &NodeDefinition, completed: &StringSet) -> (r: bool)
    ensures
        r == released(*node, completed@),
{
    let mut j: usize = 0;
    while j < node.dependencies.len()
        invariant
            j <= node.dependencies@.len(),
            forall|b: int| 0 <= b < j ==> completed@.contains(#[trigger] node.dependencies@[b]@),
        decreases node.dependencies.len() - j,
    {
        if !completed.contains(node.dependencies[j].as_str()) {
            proof {
                assert(!completed@.contains(node.dependencies@[j as int]@));
            }
            return false;
        }
        j = j + 1;
    }
    true
}

/// How far a run has come.
pub struct Progress {
    pub completed: StringSet,
    pub executing: StringSet,
}

/// A run that does not get on says so.
pub open spec fn is_deadlock(e: DaggerError) -> bool {
    e.is_execution("dag_executor"@, "No ready nodes and no executing nodes - possible dependency deadlock"@)
}

impl Progress {
    /// Nothing was started yet.
    pub fn new() -> (r: Self)
        ensures
            r.completed@ == Set::<Seq<char>>::empty(),
            r.executing@ == Set::<Seq<char>>::empty(),
    {
        Progress { completed: StringSet::new(), executing: StringSet::new() }
    }

    /// Whether all nodes were dealt with.
    pub fn is_over(&self, nodes: &StringMap<NodeDefinition>) -> (r: bool)
        ensures
            r == (self.completed@.len() >= nodes.pairs().len()),
    {
        self.completed.len() >= nodes.len()
    }

    /// The nodes that can be started; they count as executing from then on.
    pub fn start_ready(&mut self, nodes: &StringMap<NodeDefinition>) -> (r: Result<Vec<String>, DaggerError>)
        ensures
            ({
                let ready = to_start(nodes.pairs(), old(self).completed@, old(self).executing@, nodes.pairs().len() as int);
                &&& final(self).completed == old(self).completed
                &&& r is Err <==> ready.len() == 0 && old(self).executing@ == Set::<Seq<char>>::empty()
                &&& r matches Err(e) ==> is_deadlock(e) && final(self).executing == old(self).executing
                &&& r matches Ok(v) ==> views(v@) == ready
                &&& r is Ok ==> forall|k: Seq<char>| #[trigger]
                    final(self).executing@.contains(k) <==> old(self).executing@.contains(k) || ready.contains(k)
            }),
    {
        let n: usize = nodes.len();
        let ghost pairs = nodes.pairs();
        let ghost completed = self.completed@;
        let ghost executing = self.executing@;
        let mut ready: Vec<String> = Vec::new();
        let mut i: usize = 0;
        proof {
            assert(views(ready@) =~= Seq::<Seq<char>>::empty());
        }
        while i < n
            invariant
                i <= n,
                n == pairs.len(),
                pairs == nodes.pairs(),
                completed == self.completed@,
                executing == self.executing@,
                views(ready@) == to_start(pairs, completed, executing, i as int),
            decreases n - i,
        {
            let id = nodes.key_at(i);
            let free: bool = !self.completed.contains(id.as_str()) && !self.executing.contains(id.as_str());
            if free && is_released(nodes.value_at(i), &self.completed) {
                let ghost before = views(ready@);
                ready.push(id.clone());
                proof {
                    assert(views(ready@) =~= before.push(id@));
                }
            }
            i = i + 1;
        }
        if ready.len() == 0 && self.executing.is_empty() {
            return Err(
                DaggerError::execution(
                    "dag_executor",
                    "No ready nodes and no executing nodes - possible dependency deadlock",
                ),
            );
        }
        let ghost all = views(ready@);
        let mut j: usize = 0;
        proof {
            assert(all.take(0) =~= Seq::<Seq<char>>::empty());
        }
        while j < ready.len()
            invariant
                j <= ready@.len(),
                all == views(ready@),
                self.completed == old(self).completed,
                executing == old(self).executing@,
                forall|k: Seq<char>| #[trigger]
                    self.executing@.contains(k) <==> executing.contains(k) || all.take(j as int).contains(k),
            decreases ready.len() - j,
        {
            self.executing.insert(ready[j].clone());
            proof {
                let a = all.take(j as int);
                let b = all.take(j + 1);
                assert(b =~= a.push(all[j as int]));
                assert forall|k: Seq<char>| b.contains(k) <==> a.contains(k) || k == all[j as int] by {
                    if a.contains(k) {
                        assert(b[a.index_of(k)] == k);
                    }
                    if k == all[j as int] {
                        assert(b[j as int] == k);
                    }
                }
            }
            j = j + 1;
        }
        proof {
            assert(all.take(j as int) =~= all);
        }
        Ok(ready)
    }

    /// Takes the outcome of a node: one that failed is dealt with as the settings say, and
    /// where they say so, its error ends the run.
    pub fn finish(
        &mut self,
        state: &mut DagExecutionState,
        handling: &ErrorHandling,
        node_id: &str,
        failure: Option<DaggerError>,
        now: u64,
    ) -> (r: Result<(), DaggerError>)
        ensures
            final(self).executing@ == old(self).executing@.remove(node_id@),
            ({
                let goes_on = failure is None || goes_on_after_error(*handling);
                &&& r is Ok <==> goes_on
                &&& r matches Err(e) ==> failure == Some(e)
                &&& final(self).completed@ == (if goes_on {
                    old(self).completed@.insert(node_id@)
                } else {
                    old(self).completed@
                })
                &&& failure is Some && *handling is SkipOnError ==> node_updated(
                    *old(state),
                    *final(state),
                    node_id@,
                    NodeStatus::Skipped,
                    Some(failure->0.text()),
                    now,
                )
                &&& failure is None || !(*handling is SkipOnError) ==> *final(state) == *old(state)
            }),
    {
        self.executing.remove(node_id);
        match failure {
            None => {},
            Some(e) => {
                match handling {
                    ErrorHandling::StopOnError => {
                        return Err(e);
                    },
                    ErrorHandling::ContinueOnError => {},
                    ErrorHandling::SkipOnError => {
                        let text = e.message();
                        update_node_state(state, node_id, NodeStatus::Skipped, Some(text), now);
                    },
                    ErrorHandling::Custom(_) => {
                        return Err(e);
                    },
                }
            },
        }
        self.completed.insert(owned(node_id));
        Ok(())
    }
}

/// Whether a run goes on after a node failed.
pub open spec fn goes_on_after_error(h: ErrorHandling) -> bool {
    h is ContinueOnError || h is SkipOnError
}

/// The counts after a node came to `status`.
pub open spec fn counted(m: DagExecutionMetrics, status: NodeStatus) -> DagExecutionMetrics {
    match status {
        NodeStatus::Completed => DagExecutionMetrics { completed_nodes: (m.completed_nodes + 1) as usize, ..m },
        NodeStatus::Failed => DagExecutionMetrics { failed_nodes: (m.failed_nodes + 1) as usize, ..m },
        _ => m,
    }
}

/// Whether `after` is the state in which a node came to `status` at `now`. A node that is not
/// known changes nothing.
pub open spec fn node_updated(
    before: DagExecutionState,
    after: DagExecutionState,
    node_id: Seq<char>,
    status: NodeStatus,
    error: Option<Seq<char>>,
    now: u64,
) -> bool {
    if before.node_states@.contains_key(node_id) {
        let old_node = before.node_states@[node_id];
        let node = after.node_states@[node_id];
        let ended = status is Completed || status is Failed || status is Cancelled;
        &&& after == (DagExecutionState {
            node_states: after.node_states,
            metrics: counted(before.metrics, status),
            ..before
        })
        &&& after.node_states@ == before.node_states@.insert(node_id, node)
        &&& node == (NodeExecutionState {
            status,
            error: node.error,
            start_time: if status is Running {
                Some(now)
            } else {
                old_node.start_time
            },
            end_time: if ended {
                Some(now)
            } else {
                old_node.end_time
            },
            ..old_node
        })
        &&& match error {
            Some(t) => node.error matches Some(s) && s@ == t,
            None => node.error is None,
        }
    } else {
        after == before
    }
}

/// Notes that a node came to `status` at `now`.
pub fn update_node_state(state: &mut DagExecutionState, node_id: &str, status: NodeStatus, error: Option<String>, now: u64)
    requires
        status is Completed ==> old(state).metrics.completed_nodes < usize::MAX,
        status is Failed ==> old(state).metrics.failed_nodes < usize::MAX,
    ensures
        node_updated(
            *old(state),
            *final(state),
            node_id@,
            status,
            match error {
                Some(s) => Some(s@),
                None => None,
            },
            now,
        ),
{
    if !state.node_states.contains_key(node_id) {
        return ;
    }
    match state.node_states.remove(node_id) {
        Some(n) => {
            let mut node: NodeExecutionState = n;
            node.status = status;
            node.error = error;
            match status {
                NodeStatus::Running => {
                    node.start_time = Some(now);
                },
                NodeStatus::Completed => {
                    node.end_time = Some(now);
                    state.metrics.completed_nodes = state.metrics.completed_nodes + 1;
                },
                NodeStatus::Failed => {
                    node.end_time = Some(now);
                    state.metrics.failed_nodes = state.metrics.failed_nodes + 1;
                },
                NodeStatus::Cancelled => {
                    node.end_time = Some(now);
                },
                _ => {},
            }
            let ghost after = node;
            state.node_states.insert(owned(node_id), node);
            proof {
                assert(state.node_states@ =~= old(state).node_states@.insert(node_id@, after));
            }
        },
        None => {},
    }
}

/// Where the dependencies form no cycle and are all nodes, and a node is not completed, some
/// node can be started as soon as nothing executes: a run does not get stuck.
pub proof fn sound_run_progresses(pairs: Seq<(String, NodeDefinition)>, completed: Set<Seq<char>>, i: int)
    requires
        distinct_keys(pairs),
        all_present(pairs, as_map(pairs)),
        !has_cycle(as_map(pairs)),
        0 <= i < pairs.len(),
        !completed.contains(pairs[i].0@),
    ensures
        to_start(pairs, completed, Set::empty(), pairs.len() as int).len() > 0,
{
    let n = pairs.len();
    let edges = graph_edges(pairs, n as int);
    lemma_cycles_agree(pairs);
    if to_start(pairs, completed, Set::empty(), n as int).len() == 0 {
        let w = Set::new(|k: nat| k < n && !completed.contains(pairs[k as int].0@));
        assert(fed_from_within(edges, n, w)) by {
            assert forall|b: nat| #[trigger] w.contains(b) implies b < n && has_source_in(edges, w, b) by {
                if startable(pairs, completed, Set::empty(), b as int) {
                    lemma_to_start_grows(pairs, completed, Set::empty(), b as int + 1, n as int);
                }
                let node = pairs[b as int].1;
                let j = choose|j: int|
                    0 <= j < node.dependencies@.len() && !completed.contains(#[trigger] node.dependencies@[j]@);
                let dep = node.dependencies@[j]@;
                assert(dependencies_present(node, as_map(pairs)));
                assert(has_key(pairs, dep));
                let a = key_index(pairs, dep);
                lemma_dependency_is_edge(pairs, n as int, a, b as int, j);
                assert(w.contains(a as nat));
                assert(edges.contains((a as nat, b)));
            }
        }
        assert(w.contains(i as nat));
        let path = lemma_fed_path(edges, n, w, i as nat, n);
        lemma_long_path_closes(edges, path, n);
    }
}

proof fn lemma_to_start_grows(
    pairs: Seq<(String, NodeDefinition)>,
    completed: Set<Seq<char>>,
    executing: Set<Seq<char>>,
    m: int,
    n: int,
)
    requires
        0 < m <= n,
        startable(pairs, completed, executing, m - 1),
    ensures
        to_start(pairs, completed, executing, n).len() > 0,
    decreases n,
{
    if m < n {
        lemma_to_start_grows(pairs, completed, executing, m, n - 1);
    }
}

/// A node is only started once everything that it depends on is completed.
pub proof fn started_nodes_are_released(
    pairs: Seq<(String, NodeDefinition)>,
    completed: Set<Seq<char>>,
    executing: Set<Seq<char>>,
    n: int,
    k: int,
)
    requires
        0 <= n <= pairs.len(),
        distinct_keys(pairs),
        0 <= k < to_start(pairs, completed, executing, n).len(),
    ensures
        as_map(pairs).contains_key(to_start(pairs, completed, executing, n)[k]),
        released(as_map(pairs)[to_start(pairs, completed, executing, n)[k]], completed),
        !completed.contains(to_start(pairs, completed, executing, n)[k]),
        !executing.contains(to_start(pairs, completed, executing, n)[k]),
    decreases n,
{
    let before = to_start(pairs, completed, executing, n - 1);
    if k < before.len() {
        started_nodes_are_released(pairs, completed, executing, n - 1, k);
    } else {
        lemma_entry(pairs, n - 1);
    }
}

/// Whether an error of this kind is one after which a node is tried again.
pub open spec fn retriable(error: DaggerError, policy: RetryPolicy) -> bool {
    holds_text(policy.retry_on@, error.kind())
}

/// Whether a node is tried again after an error.
pub fn should_retry_error(error: &DaggerError, policy: &RetryPolicy) -> (r: bool)
    ensures
        r == retriable(*error, *policy),
{
    contains(&policy.retry_on, error.category())
}

/// The longest time that a `Duration` holds, in nanoseconds.
pub const LONGEST: u128 = 18_446_744_073_709_551_615_999_999_999;

/// `n` doubled `times` times.
pub open spec fn doubled(n: nat, times: nat) -> nat
    decreases times,
{
    if times == 0 {
        n
    } else {
        2 * doubled(n, (times - 1) as nat)
    }
}

proof fn lemma_doubled_grows(n: nat, a: nat, b: nat)
    requires
        a <= b,
    ensures
        doubled(n, a) <= doubled(n, b),
    decreases b,
{
    if a < b {
        lemma_doubled_grows(n, a, (b - 1) as nat);
    }
}

/// How often the delay was doubled at an attempt.
pub open spec fn doublings(attempt: u32) -> nat {
    if attempt == 0 {
        0
    } else {
        (attempt - 1) as nat
    }
}

/// Whether the delay at an attempt can be held.
pub open spec fn delay_fits(attempt: u32, policy: RetryPolicy) -> bool {
    match policy.backoff {
        BackoffStrategy::Fixed => true,
        BackoffStrategy::Linear => nanos(policy.base_delay) * attempt <= LONGEST,
        _ => doublings(attempt) <= 63 && doubled(nanos(policy.base_delay), doublings(attempt)) <= LONGEST,
    }
}

/// The smaller of two numbers.
pub open spec fn lesser(a: nat, b: nat) -> nat {
    if a <= b {
        a
    } else {
        b
    }
}

/// The delay before an attempt, in nanoseconds. `jittered` is the delay in milliseconds where
/// chance has a part in it.
pub open spec fn backoff_nanos(attempt: u32, policy: RetryPolicy, jittered: u64) -> nat {
    let base = nanos(policy.base_delay);
    let most = nanos(policy.max_delay);
    let delay = match policy.backoff {
        BackoffStrategy::Fixed => base,
        BackoffStrategy::Linear => base * attempt as nat,
        BackoffStrategy::Exponential => lesser(doubled(base, doublings(attempt)) / 1_000_000, most / 1_000_000) * 1_000_000,
        BackoffStrategy::ExponentialJitter => jittered as nat * 1_000_000,
    };
    lesser(delay, most)
}

/// The base delay of a policy doubled for an attempt, in nanoseconds.
pub fn exponential_delay(attempt: u32, base_delay: Duration) -> (r: u128)
    requires
        doublings(attempt) <= 63,
        doubled(nanos(base_delay), doublings(attempt)) <= LONGEST,
    ensures
        r == doubled(nanos(base_delay), doublings(attempt)),
{
    let times: u32 = if attempt == 0 {
        0
    } else {
        attempt - 1
    };
    let mut delay: u128 = base_delay.as_nanos();
    let mut i: u32 = 0;
    while i < times
        invariant
            i <= times,
            times == doublings(attempt),
            delay == doubled(nanos(base_delay), i as nat),
            doubled(nanos(base_delay), times as nat) <= LONGEST,
        decreases times - i,
    {
        proof {
            lemma_doubled_grows(nanos(base_delay), (i + 1) as nat, times as nat);
        }
        delay = 2 * delay;
        i = i + 1;
    }
    delay
}

fn duration_of(n: u128) -> (r: Duration)
    requires
        n <= LONGEST,
    ensures
        nanos(r) == n,
{
    let secs: u64 = (n / 1_000_000_000) as u64;
    let rest: u32 = (n % 1_000_000_000) as u32;
    Duration::new(secs, rest)
}

/// The delay before an attempt. `jittered` is the delay in milliseconds where chance has a part
/// in it.
pub fn calculate_backoff_delay(attempt: u32, policy: &RetryPolicy, jittered: u64) -> (r: Duration)
    requires
        delay_fits(attempt, *policy),
    ensures
        nanos(r) == backoff_nanos(attempt, *policy, jittered),
{
    let base: u128 = policy.base_delay.as_nanos();
    let most: u128 = policy.max_delay.as_nanos();
    let delay: u128 = match policy.backoff {
        BackoffStrategy::Fixed => base,
        BackoffStrategy::Linear => {
            proof {
                assert(base * (attempt as u128) == nanos(policy.base_delay) * attempt);
            }
            base * attempt as u128
        },
        BackoffStrategy::Exponential => {
            let millis: u128 = exponential_delay(attempt, policy.base_delay) / 1_000_000;
            let cap: u128 = most / 1_000_000;
            if millis <= cap {
                millis * 1_000_000
            } else {
                cap * 1_000_000
            }
        },
        BackoffStrategy::ExponentialJitter => jittered as u128 * 1_000_000,
    };
    if delay <= most {
        duration_of(delay)
    } else {
        policy.max_delay
    }
}

/// A node is never waited for longer than the policy says, whatever chance has to do with it.
pub proof fn delay_is_capped(attempt: u32, policy: RetryPolicy, jittered: u64)
    ensures
        backoff_nanos(attempt, policy, jittered) <= nanos(policy.max_delay),
{
}

/// What comes before an attempt at a node: nothing at the first, and after an error a delay,
/// where the node is tried again after such an error.
pub fn before_attempt(attempt: u32, last_error: &Option<DaggerError>, policy: &RetryPolicy, jittered: u64) -> (r: Result<
    Option<Duration>,
    DaggerError,
>)
    requires
        delay_fits(attempt, *policy),
    ensures
        attempt == 0 || *last_error is None ==> r == Ok::<Option<Duration>, DaggerError>(None),
        attempt > 0 && *last_error is Some ==> {
            &&& r is Ok <==> retriable(last_error->0, *policy)
            &&& r matches Ok(d) ==> d is Some && nanos(d->0) == backoff_nanos(attempt, *policy, jittered)
            &&& r matches Err(e) ==> e.is_execution("node_executor"@, "Retry limit exceeded"@)
        },
{
    if attempt > 0 {
        if let Some(error) = last_error {
            if !should_retry_error(error, policy) {
                return Err(DaggerError::execution("node_executor", "Retry limit exceeded"));
            }
            return Ok(Some(calculate_backoff_delay(attempt, policy, jittered)));
        }
    }
    Ok(None)
}

/// The policy by which a node is tried again: its own, or that of the workflow.
pub fn policy_of<'a>(node: &'a NodeDefinition, usual: &'a RetryPolicy) -> (r: &'a RetryPolicy)
    ensures
        *r == (match node.retry_policy {
            Some(p) => p,
            None => *usual,
        }),
{
    match &node.retry_policy {
        Some(p) => p,
        None => usual,
    }
}

/// What is said where no attempt was made or none said why it failed.
pub fn last_failure(last_error: Option<DaggerError>) -> (r: DaggerError)
    ensures
        last_error matches Some(e) ==> r == e,
        last_error is None ==> r.is_execution("node_executor"@, "Unknown execution error"@),
{
    match last_error {
        Some(e) => e,
        None => DaggerError::execution("node_executor", "Unknown execution error"),
    }
}

/// The attempts at a node that failed.
#[derive(Debug)]
pub struct Retries {
    /// How many there were.
    pub made: u64,
    /// The error of the last.
    pub last_error: Option<DaggerError>,
}

impl Retries {
    /// No attempt failed yet.
    pub fn new() -> (r: Self)
        ensures
            r.made == 0,
            r.last_error is None,
    {
        Retries { made: 0, last_error: None }
    }

    /// The number of the next attempt, with the delay before it, where there is one: the node
    /// is attempted once, and as often again as the policy says. After an error of another
    /// kind than those that the policy names there is none, and the node fails.
    pub fn next_attempt(&self, policy: &RetryPolicy, jittered: u64) -> (r: Result<
        Option<(u32, Option<Duration>)>,
        DaggerError,
    >)
        requires
            self.made <= policy.max_retries ==> delay_fits(self.made as u32, *policy),
        ensures
            self.made > policy.max_retries ==> r == Ok::<Option<(u32, Option<Duration>)>, DaggerError>(None),
            self.made <= policy.max_retries && (self.made == 0 || self.last_error is None) ==> r == Ok::<
                Option<(u32, Option<Duration>)>,
                DaggerError,
            >(Some((self.made as u32, None))),
            0 < self.made <= policy.max_retries && self.last_error is Some ==> {
                &&& r is Ok <==> retriable(self.last_error->0, *policy)
                &&& r is Ok ==> (r matches Ok(Some((n, Some(d)))) && n == self.made && nanos(d) == backoff_nanos(
                    self.made as u32,
                    *policy,
                    jittered,
                ))
                &&& r matches Err(e) ==> e.is_execution("node_executor"@, "Retry limit exceeded"@)
            },
    {
        if self.made > policy.max_retries as u64 {
            return Ok(None);
        }
        let attempt: u32 = self.made as u32;
        match before_attempt(attempt, &self.last_error, policy, jittered) {
            Ok(delay) => Ok(Some((attempt, delay))),
            Err(e) => Err(e),
        }
    }

    /// The attempt failed.
    pub fn failed(&mut self, error: DaggerError)
        requires
            old(self).made < u64::MAX,
        ensures
            final(self).made == old(self).made + 1,
            final(self).last_error == Some(error),
    {
        self.made = self.made + 1;
        self.last_error = Some(error);
    }
}

/// What is said of a node whose type has no action.
pub fn missing_action() -> (r: DaggerError)
    ensures
        r.is_execution("node_executor"@, "No action registered for node type"@),
{
    DaggerError::execution("node_executor", "No action registered for node type")
}

/// How much memory a node is taken to need, in bytes.
pub const NODE_MEMORY: u64 = 1_048_576;

/// What was measured of a node.
#[derive(Debug)]
pub struct NodeExecutionMetrics {
    pub execution_duration: Option<Duration>,
    pub queue_duration: Option<Duration>,
    pub memory_used_bytes: u64,
    pub cache_hit: bool,
    pub serialization_duration: Option<Duration>,
    pub dependencies_resolved: usize,
    pub custom_metrics: StringMap<Double>,
}

impl Default for NodeExecutionMetrics {
    fn default() -> (r: Self)
        ensures
            r.execution_duration is None,
            r.queue_duration is None,
            r.memory_used_bytes == 0,
            !r.cache_hit,
            r.serialization_duration is None,
            r.dependencies_resolved == 0,
            r.custom_metrics@ == Map::<Seq<char>, Double>::empty(),
    {
        NodeExecutionMetrics {
            execution_duration: None,
            queue_duration: None,
            memory_used_bytes: 0,
            cache_hit: false,
            serialization_duration: None,
            dependencies_resolved: 0,
            custom_metrics: StringMap::new(),
        }
    }
}

/// What became of a node. Times are in milliseconds of the executor's clock.
#[derive(Debug)]
pub struct EnhancedExecutionResult {
    pub node_id: String,
    pub status: NodeStatus,
    pub result: Option<Value>,
    pub error: Option<String>,
    pub metrics: NodeExecutionMetrics,
    pub start_time: u64,
    pub end_time: Option<u64>,
    pub retry_count: u32,
}

impl EnhancedExecutionResult {
    /// A node that begins at `start_time`, after it waited.
    pub fn begin(node: &NodeDefinition, queue_duration: Duration, start_time: u64) -> (r: Self)
        ensures
            r.node_id@ == node.id@,
            r.status == NodeStatus::Running,
            r.result is None,
            r.error is None,
            r.metrics.queue_duration == Some(queue_duration),
            r.metrics.dependencies_resolved == node.dependencies@.len(),
            r.metrics.execution_duration is None,
            !r.metrics.cache_hit,
            r.metrics.memory_used_bytes == 0,
            r.metrics.serialization_duration is None,
            r.metrics.custom_metrics@ == Map::<Seq<char>, Double>::empty(),
            r.start_time == start_time,
            r.end_time is None,
            r.retry_count == 0,
    {
        let mut metrics = NodeExecutionMetrics::default();
        metrics.queue_duration = Some(queue_duration);
        metrics.dependencies_resolved = node.dependencies.len();
        EnhancedExecutionResult {
            node_id: node.id.clone(),
            status: NodeStatus::Running,
            result: None,
            error: None,
            metrics,
            start_time,
            end_time: None,
            retry_count: 0,
        }
    }

    /// An attempt begins.
    pub fn attempt(&mut self, attempt: u32)
        ensures
            *final(self) == (EnhancedExecutionResult { retry_count: attempt, ..*old(self) }),
    {
        self.retry_count = attempt;
    }

    /// The result was found in the cache.
    pub fn found(&mut self)
        ensures
            *final(self) == (EnhancedExecutionResult {
                metrics: NodeExecutionMetrics { cache_hit: true, ..old(self).metrics },
                ..*old(self)
            }),
    {
        self.metrics.cache_hit = true;
    }

    /// The node gave a result.
    pub fn gave(&mut self, value: Value)
        ensures
            *final(self) == (EnhancedExecutionResult { result: Some(value), ..*old(self) }),
    {
        self.result = Some(value);
    }

    /// The node ended at `end_time`, after `duration`, with an error or without.
    pub fn end(&mut self, end_time: u64, duration: Duration, failure: &Option<DaggerError>)
        ensures
            *final(self) == (EnhancedExecutionResult {
                status: if *failure is Some {
                    NodeStatus::Failed
                } else {
                    NodeStatus::Completed
                },
                error: final(self).error,
                metrics: NodeExecutionMetrics { execution_duration: Some(duration), ..old(self).metrics },
                end_time: Some(end_time),
                ..*old(self)
            }),
            match *failure {
                Some(e) => final(self).error matches Some(t) && t@ == e.text(),
                None => final(self).error == old(self).error,
            },
    {
        self.end_time = Some(end_time);
        self.metrics.execution_duration = Some(duration);
        match failure {
            None => {
                self.status = NodeStatus::Completed;
            },
            Some(e) => {
                self.status = NodeStatus::Failed;
                self.error = Some(e.message());
            },
        }
    }

    /// Whether the result is to be cached.
    pub fn is_to_be_cached(&self, node: &NodeDefinition) -> (r: bool)
        ensures
            r == (self.status == NodeStatus::Completed && node.cacheable && self.result is Some),
    {
        self.status == NodeStatus::Completed && node.cacheable && self.result.is_some()
    }
}

/// The name under which the times of a node are kept.
pub fn operation_name(node_type: &str) -> (r: String)
    ensures
        r@ == "node_execution_"@ + node_type@,
{
    cat2("node_execution_", node_type)
}

/// The key under which the result of a node is cached.
pub fn cache_key(node_id: &str) -> (r: String)
    ensures
        r@ == "node_result_"@ + node_id@,
{
    cat2("node_result_", node_id)
}

/// An action that repeats a message, after a delay where it is told so.
#[derive(Debug)]
pub struct ExampleEnhancedAction {
    name: String,
}

/// The number that a JSON value holds, where it is a whole number that fits.
pub open spec fn whole_number(v: Json) -> Option<u64> {
    if exists|n: u64| v == Json::Number(#[trigger] decimal(n as nat)) {
        Some(choose|n: u64| v == Json::Number(#[trigger] decimal(n as nat)))
    } else {
        None
    }
}

fn read_number(v: &Value) -> (r: Option<u64>)
    ensures
        r is Some <==> whole_number(v@) is Some,
        r matches Some(n) ==> v@ == Json::Number(decimal(n as nat)),
{
    match v {
        Value::Number(t) => parse_dec(t.as_str()),
        _ => None,
    }
}

/// What an [`ExampleEnhancedAction`] does with a node.
#[derive(Debug)]
pub struct ExampleRun {
    /// How long it waits, in milliseconds.
    pub delay_ms: u64,
    /// The name under which its time is kept.
    pub operation: String,
    pub result: Value,
}

impl ExampleEnhancedAction {
    /// What the action is called.
    pub closed spec fn title(&self) -> Seq<char> {
        self.name@
    }

    /// An action.
    pub fn new(name: String) -> (r: Self)
        ensures
            r.title() == name@,
    {
        ExampleEnhancedAction { name }
    }

    /// What the action is called.
    pub fn name(&self) -> (r: String)
        ensures
            r@ == self.title(),
    {
        self.name.clone()
    }

    /// Checks the settings of a node: there is a message, and a delay is a number and not too
    /// long.
    pub fn validate_input(&self, input: &Value) -> (r: Result<(), DaggerError>)
        ensures
            ({
                let delay = member(input@, "delay_ms"@);
                let no_message = member(input@, "message"@) is None;
                let bad_delay = delay is Some && (!(delay->0 is Number) || exists|n: u64|
                    n > 60000 && delay->0 == Json::Number(#[trigger] decimal(n as nat)));
                &&& r is Ok <==> !no_message && !bad_delay
                &&& r matches Err(e) ==> e.is_validation(
                    if no_message {
                        "Message field is required"@
                    } else {
                        "delay_ms must be a number \u{2264} 60000"@
                    },
                )
            }),
    {
        if input.get("message").is_none() {
            return Err(DaggerError::validation("Message field is required"));
        }
        if let Some(delay) = input.get("delay_ms") {
            let is_number: bool = match delay {
                Value::Number(_) => true,
                _ => false,
            };
            let number = read_number(delay);
            let long: bool = match number {
                Some(n) => n > 60000,
                None => false,
            };
            proof {
                assert(is_number == (delay@ is Number));
                if exists|n: u64| n > 60000 && delay@ == Json::Number(#[trigger] decimal(n as nat)) {
                    let n = choose|n: u64| n > 60000 && delay@ == Json::Number(#[trigger] decimal(n as nat));
                    assert(whole_number(delay@) is Some);
                    decimal_injective(n as nat, number->0 as nat);
                }
            }
            if !is_number || long {
                return Err(DaggerError::validation("delay_ms must be a number \u{2264} 60000"));
            }
        }
        Ok(())
    }

    /// What the action does with the node called `node_id` at `processed_at`.
    pub fn execute(&self, node_id: &str, config: &Value, processed_at: &str) -> (r: ExampleRun)
        ensures
            ({
                let message = match member(config@, "message"@) {
                    Some(Json::String(t)) => t,
                    _ => "No message"@,
                };
                let delay = member(config@, "delay_ms"@);
                &&& delay is None || whole_number(delay->0) is None ==> r.delay_ms == 0
                &&& delay is Some && whole_number(delay->0) is Some ==> delay->0 == Json::Number(
                    decimal(r.delay_ms as nat),
                )
                &&& r.operation@ == "action_"@ + self.title()
                &&& r.result@ == Json::Object(
                    seq![
                        ("action"@, Json::String(self.title())),
                        ("node_id"@, Json::String(node_id@)),
                        ("processed_at"@, Json::String(processed_at@)),
                        ("result"@, Json::String("Processed: "@ + message)),
                    ],
                )
            }),
    {
        let message: String = match config.get("message") {
            Some(v) => match v.as_str() {
                Some(t) => owned(t),
                None => owned("No message"),
            },
            None => owned("No message"),
        };
        let delay_ms: u64 = match config.get("delay_ms") {
            Some(v) => match read_number(v) {
                Some(n) => n,
                None => 0,
            },
            None => 0,
        };
        let text = cat2("Processed: ", message.as_str());
        let mut members: Vec<(String, Value)> = Vec::new();
        members.push((owned("action"), string(self.name.as_str())));
        members.push((owned("node_id"), string(node_id)));
        members.push((owned("processed_at"), string(processed_at)));
        members.push((owned("result"), string(text.as_str())));
        let ghost all = members_json(members@);
        proof {
            let message_view = match member(config@, "message"@) {
                Some(Json::String(t)) => t,
                _ => "No message"@,
            };
            assert(message@ == message_view);
            assert(all =~= seq![
                ("action"@, Json::String(self.title())),
                ("node_id"@, Json::String(node_id@)),
                ("processed_at"@, Json::String(processed_at@)),
                ("result"@, Json::String("Processed: "@ + message_view)),
            ]);
        }
        ExampleRun { delay_ms, operation: cat2("action_", self.name.as_str()), result: object(members) }
    }
}

proof fn lemma_to_start(
    pairs: Seq<(String, NodeDefinition)>,
    completed: Set<Seq<char>>,
    executing: Set<Seq<char>>,
    n: int,
    id: Seq<char>,
)
    requires
        0 <= n <= pairs.len(),
    ensures
        to_start(pairs, completed, executing, n).contains(id) <==> exists|i: int|
            0 <= i < n && (#[trigger] pairs[i]).0@ == id && startable(pairs, completed, executing, i),
    decreases n,
{
    if n > 0 {
        lemma_to_start(pairs, completed, executing, n - 1, id);
        let before = to_start(pairs, completed, executing, n - 1);
        let all = to_start(pairs, completed, executing, n);
        if startable(pairs, completed, executing, n - 1) {
            assert(all[before.len() as int] == pairs[n - 1].0@);
            if before.contains(id) {
                let k = choose|k: int| 0 <= k < before.len() && before[k] == id;
                assert(all[k] == id);
            }
            if all.contains(id) && !before.contains(id) {
                let k = choose|k: int| 0 <= k < all.len() && all[k] == id;
                if k < before.len() {
                    assert(before[k] == id);
                }
            }
        }
    }
}

/// A node is started exactly where it neither ran nor runs and all that it depends on has ended;
/// it runs from then on. Where nothing can be started and nothing runs, that is an error.
pub proof fn released_nodes_are_started(p: &mut Progress, nodes: &StringMap<NodeDefinition>, r: Result<Vec<String>, DaggerError>, i: int)
    requires
        call_ensures(Progress::start_ready, (p, nodes), r),
        distinct_keys(nodes.pairs()),
        0 <= i < nodes.pairs().len(),
    ensures
        ({
            let id = nodes.pairs()[i].0@;
            let deps = nodes.pairs()[i].1.dependencies@;
            let due = !old(p).completed@.contains(id) && !old(p).executing@.contains(id) && forall|j: int|
                0 <= j < deps.len() ==> old(p).completed@.contains((#[trigger] deps[j])@);
            &&& r matches Ok(list) ==> (holds_text(list@, id) <==> due)
            &&& r is Ok ==> (final(p).executing@.contains(id) <==> old(p).executing@.contains(id) || due)
            &&& due ==> r is Ok
        }),
        old(p).executing@ != Set::<Seq<char>>::empty() ==> r is Ok,
        r matches Err(e) ==> (e matches DaggerError::Execution { component, message, .. } && component@ == "dag_executor"@
            && message@ == "No ready nodes and no executing nodes - possible dependency deadlock"@),
        final(p).completed@ == old(p).completed@,
{
    let pairs = nodes.pairs();
    let id = pairs[i].0@;
    let ready = to_start(pairs, old(p).completed@, old(p).executing@, pairs.len() as int);
    lemma_to_start(pairs, old(p).completed@, old(p).executing@, pairs.len() as int, id);
    let deps = pairs[i].1.dependencies@;
    assert(released(pairs[i].1, old(p).completed@) <==> forall|j: int|
        0 <= j < deps.len() ==> old(p).completed@.contains((#[trigger] deps[j])@)) by {
        if forall|j: int| 0 <= j < deps.len() ==> old(p).completed@.contains((#[trigger] deps[j])@) {
            assert forall|j: int| 0 <= j < deps.len() implies old(p).completed@.contains(
                #[trigger] pairs[i].1.dependencies@[j]@,
            ) by {
                assert(old(p).completed@.contains(deps[j]@));
            }
        }
        if released(pairs[i].1, old(p).completed@) {
            assert forall|j: int| 0 <= j < deps.len() implies old(p).completed@.contains((#[trigger] deps[j])@) by {
                assert(old(p).completed@.contains(pairs[i].1.dependencies@[j]@));
            }
        }
    }
    if ready.contains(id) {
        let k = choose|k: int|
            0 <= k < pairs.len() && (#[trigger] pairs[k]).0@ == id && startable(pairs, old(p).completed@, old(p).executing@, k);
        assert(k == i);
    }
    if startable(pairs, old(p).completed@, old(p).executing@, i) {
        assert(pairs[i].0@ == id);
        assert(ready.contains(id));
        assert(ready.len() > 0);
    }
    if let Ok(list) = r {
        assert(views(list@) == ready);
        if holds_text(list@, id) {
            let k = choose|k: int| 0 <= k < list@.len() && (#[trigger] list@[k])@ == id;
            assert(ready[k] == id);
        }
        if ready.contains(id) {
            let k = choose|k: int| 0 <= k < ready.len() && ready[k] == id;
            assert(list@[k]@ == id);
        }
    }
}

/// A node that ended no longer runs. Where it failed and the workflow stops on errors, its error
/// ends the run; where the workflow goes on, the node counts as dealt with.
pub proof fn failure_is_handled_as_set(
    p: &mut Progress,
    state: &mut DagExecutionState,
    handling: &ErrorHandling,
    id: &str,
    failure: Option<DaggerError>,
    now: u64,
    r: Result<(), DaggerError>,
)
    requires
        call_ensures(Progress::finish, (p, state, handling, id, failure, now), r),
    ensures
        !final(p).executing@.contains(id@),
        failure is None ==> r is Ok && final(p).completed@.contains(id@) && *final(state) == *old(state),
        failure is Some && *handling is StopOnError ==> r is Err && failure == Some(r->Err_0) && final(p).completed@ == old(p).completed@,
        failure is Some && *handling is Custom ==> r is Err && final(p).completed@ == old(p).completed@,
        failure is Some && *handling is ContinueOnError ==> r is Ok && final(p).completed@.contains(id@) && *final(state) == *old(state),
        failure is Some && *handling is SkipOnError ==> r is Ok && final(p).completed@.contains(id@) && (old(state).node_states@.contains_key(id@) ==> final(state).node_states@[id@].status is Skipped),
        forall|k: Seq<char>| k != id@ ==> (#[trigger] final(p).completed@.contains(k) <==> old(p).completed@.contains(k)) && (
        final(p).executing@.contains(k) <==> old(p).executing@.contains(k)),
{
}

/// A node that comes to a status has it, with the error and the time: that of its start where it
/// runs, that of its end where it ended. What ended well or failed is counted, and other nodes
/// stay.
pub proof fn node_status_is_noted(state: &mut DagExecutionState, id: &str, status: NodeStatus, error: Option<String>, now: u64)
    requires
        call_ensures(update_node_state, (state, id, status, error, now), ()),
        old(state).node_states@.contains_key(id@),
        old(state).metrics.completed_nodes < usize::MAX,
        old(state).metrics.failed_nodes < usize::MAX,
    ensures
        ({
            let n = final(state).node_states@[id@];
            let was = old(state).node_states@[id@];
            &&& n.status == status
            &&& error is None ==> n.error is None
            &&& error is Some ==> n.error is Some && n.error->0@ == error->0@
            &&& status is Running ==> n.start_time == Some(now)
            &&& !(status is Running) ==> n.start_time == was.start_time
            &&& status is Completed || status is Failed || status is Cancelled ==> n.end_time == Some(now)
            &&& !(status is Completed || status is Failed || status is Cancelled) ==> n.end_time == was.end_time
            &&& n.attempts == was.attempts && n.result == was.result
        }),
        status is Completed ==> final(state).metrics.completed_nodes == old(state).metrics.completed_nodes + 1,
        !(status is Completed) ==> final(state).metrics.completed_nodes == old(state).metrics.completed_nodes,
        status is Failed ==> final(state).metrics.failed_nodes == old(state).metrics.failed_nodes + 1,
        !(status is Failed) ==> final(state).metrics.failed_nodes == old(state).metrics.failed_nodes,
        forall|k: Seq<char>|
            k != id@ ==> (#[trigger] final(state).node_states@.contains_key(k) <==> old(state).node_states@.contains_key(k))
                && final(state).node_states@[k] == old(state).node_states@[k],
{
}

proof fn lemma_doubled(n: nat, times: nat)
    ensures
        doubled(n, times) == n * vstd::arithmetic::power2::pow2(times),
    decreases times,
{
    vstd::arithmetic::power2::lemma2_to64();
    if times > 0 {
        lemma_doubled(n, (times - 1) as nat);
        vstd::arithmetic::power2::lemma_pow2_unfold(times);
        let p = vstd::arithmetic::power2::pow2((times - 1) as nat);
        assert(2 * (n * p) == n * (2 * p)) by (nonlinear_arith);
        assert(vstd::arithmetic::power2::pow2(times) == 2 * p);
        assert(n * vstd::arithmetic::power2::pow2(times) == n * (2 * p));
    } else {
        assert(vstd::arithmetic::power2::pow2(0) == 1);
        assert(n * 1 == n) by (nonlinear_arith);
        assert(n * vstd::arithmetic::power2::pow2(times) == n * 1);
    }
}

/// How long the wait before an attempt is: always the same, in proportion to the attempt, or
/// twice as long each time, and never longer than the policy says.
pub proof fn waits_grow_as_asked(attempt: u32, policy: &RetryPolicy, jittered: u64, r: Duration)
    requires
        call_ensures(calculate_backoff_delay, (attempt, policy, jittered), r),
    ensures
        nanos(r) <= nanos(policy.max_delay),
        policy.backoff is Fixed && nanos(policy.base_delay) <= nanos(policy.max_delay) ==> nanos(r) == nanos(policy.base_delay),
        policy.backoff is Linear && nanos(policy.base_delay) * attempt <= nanos(policy.max_delay) ==> nanos(r) == nanos(
            policy.base_delay,
        ) * attempt,
        policy.backoff is Linear && nanos(policy.base_delay) * attempt > nanos(policy.max_delay) ==> nanos(r) == nanos(
            policy.max_delay,
        ),
        policy.backoff is Exponential && attempt >= 1 && (nanos(policy.base_delay) * vstd::arithmetic::power2::pow2(
            (attempt - 1) as nat,
        )) <= nanos(policy.max_delay) && (nanos(policy.base_delay) * vstd::arithmetic::power2::pow2((attempt - 1) as nat))
            % 1_000_000 == 0 ==> nanos(r) == nanos(policy.base_delay) * vstd::arithmetic::power2::pow2((attempt - 1) as nat),
        policy.backoff is ExponentialJitter && jittered * 1_000_000 <= nanos(policy.max_delay) ==> nanos(r) == jittered
            * 1_000_000,
{
    if policy.backoff is Exponential && attempt >= 1 {
        lemma_doubled(nanos(policy.base_delay), (attempt - 1) as nat);
    }
}

/// A node is tried again exactly after errors of the kinds that the policy names.
pub proof fn named_errors_are_tried_again(error: &DaggerError, policy: &RetryPolicy, r: bool, kind: &'static str)
    requires
        call_ensures(should_retry_error, (error, policy), r),
        call_ensures(DaggerError::category, (error,), kind),
    ensures
        r <==> exists|i: int| 0 <= i < policy.retry_on@.len() && (#[trigger] policy.retry_on@[i])@ == kind@,
{
}

/// A node is attempted once and as often again as its policy says, and then no more; after an
/// error that the policy does not name, not at all.
pub proof fn attempts_are_bounded(t: &Retries, policy: &RetryPolicy, jittered: u64, r: Result<Option<(u32, Option<Duration>)>, DaggerError>)
    requires
        call_ensures(Retries::next_attempt, (t, policy, jittered), r),
    ensures
        t.made > policy.max_retries ==> r == Ok::<Option<(u32, Option<Duration>)>, DaggerError>(None),
        t.made == 0 ==> r == Ok::<Option<(u32, Option<Duration>)>, DaggerError>(Some((0u32, None))),
        r matches Ok(Some(x)) ==> t.made <= policy.max_retries && x.0 == t.made,
        0 < t.made <= policy.max_retries && t.last_error is Some && !(exists|i: int|
            0 <= i < policy.retry_on@.len() && (#[trigger] policy.retry_on@[i])@ == t.last_error->0.kind()) ==> (r matches Err(
            DaggerError::Execution { component, message, .. },
        ) && component@ == "node_executor"@ && message@ == "Retry limit exceeded"@),
{
}

/// The graph of a workflow joins each dependency to the nodes that name it, and no others.
pub proof fn built_graph_joins_dependencies(nodes: &StringMap<NodeDefinition>, r: Result<Digraph, DaggerError>, a: nat, b: nat)
    requires
        call_ensures(build_graph, (nodes,), r),
        nodes.wf(),
        a < nodes.pairs().len(),
        b < nodes.pairs().len(),
    ensures
        r matches Ok(g) ==> g.size() == nodes.pairs().len() && (g.edges().contains((a, b)) <==> holds_text(
            nodes.pairs()[b as int].1.dependencies@,
            nodes.pairs()[a as int].0@,
        )),
        (exists|j: int|
            0 <= j < nodes.pairs()[b as int].1.dependencies@.len() && !nodes@.contains_key(
                (#[trigger] nodes.pairs()[b as int].1.dependencies@[j])@,
            )) ==> r is Err,
{
    let pairs = nodes.pairs();
    let n = pairs.len() as int;
    if let Ok(g) = r {
        if g.edges().contains((a, b)) {
            let j = lemma_edge_is_dependency(pairs, n, (a, b));
            assert(pairs[b as int].1.dependencies@[j]@ == pairs[a as int].0@);
        }
        if holds_text(pairs[b as int].1.dependencies@, pairs[a as int].0@) {
            let j = choose|j: int|
                0 <= j < pairs[b as int].1.dependencies@.len() && (#[trigger] pairs[b as int].1.dependencies@[j])@
                    == pairs[a as int].0@;
            lemma_dependency_is_edge(pairs, n, a as int, b as int, j);
        }
        assert(dependencies_present(pairs[b as int].1, nodes@));
    }
}

/// An exponential delay is the base at first and doubles from attempt to attempt.
pub proof fn delays_double(attempt: u32, base: Duration, r: u128)
    requires
        call_ensures(exponential_delay, (attempt, base), r),
    ensures
        attempt <= 1 ==> r == nanos(base),
        attempt >= 1 ==> r == nanos(base) * vstd::arithmetic::power2::pow2((attempt - 1) as nat),
{
    if attempt >= 1 {
        lemma_doubled(nanos(base), (attempt - 1) as nat);
    }
}

/// The first attempt comes at once; a later one after a wait, where the policy names the kind of
/// the error before it, and else not at all.
pub proof fn attempts_wait_their_turn(
    attempt: u32,
    last: &Option<DaggerError>,
    policy: &RetryPolicy,
    jittered: u64,
    r: Result<Option<Duration>, DaggerError>,
    wait: Duration,
)
    requires
        call_ensures(before_attempt, (attempt, last, policy, jittered), r),
        call_ensures(calculate_backoff_delay, (attempt, policy, jittered), wait),
    ensures
        attempt == 0 || *last is None ==> (r matches Ok(d) && d is None),
        attempt > 0 && *last is Some && (exists|i: int|
            0 <= i < policy.retry_on@.len() && (#[trigger] policy.retry_on@[i])@ == last->0.kind()) ==> (r matches Ok(d) && d is Some
            && nanos(d->0) == nanos(wait)),
        attempt > 0 && *last is Some && !(exists|i: int|
            0 <= i < policy.retry_on@.len() && (#[trigger] policy.retry_on@[i])@ == last->0.kind()) ==> (r matches Err(
            DaggerError::Execution { component, message, .. },
        ) && component@ == "node_executor"@ && message@ == "Retry limit exceeded"@),
{
}

/// What is told in the end is the last error, or that it is not known.
pub proof fn last_error_is_told(last: Option<DaggerError>, r: DaggerError)
    requires
        call_ensures(last_failure, (last,), r),
    ensures
        last matches Some(e) ==> r == e,
        last is None ==> (r matches DaggerError::Execution { component, message, .. } && component@ == "node_executor"@ && message@
            == "Unknown execution error"@),
{
}

/// A run that ends has failed exactly where there was an error, whose text is kept.
pub proof fn run_ends_as_it_went(x: &mut EnhancedExecutionResult, at: u64, took: Duration, failure: &Option<DaggerError>)
    requires
        call_ensures(EnhancedExecutionResult::end, (x, at, took, failure), ()),
    ensures
        final(x).status is Failed <==> *failure is Some,
        final(x).status is Completed <==> *failure is None,
        *failure is None ==> final(x).error == old(x).error,
        final(x).end_time == Some(at) && final(x).metrics.execution_duration == Some(took) && final(x).start_time == old(x).start_time,
{
}

/// Measurements and results are kept under the type and the id of a node; a node whose type has
/// no action is refused.
pub proof fn names_tell_what_for(kind: &str, id: &str, operation: String, key: String, e: DaggerError)
    requires
        call_ensures(operation_name, (kind,), operation),
        call_ensures(cache_key, (id,), key),
        call_ensures(missing_action, (), e),
    ensures
        operation@ == "node_execution_"@ + kind@,
        key@ == "node_result_"@ + id@,
        e matches DaggerError::Execution { component, message, .. } && component@ == "node_executor"@ && message@
            == "No action registered for node type"@,
{
}

/// The example wants a message, and a delay of a minute at most where there is one.
pub proof fn example_inputs_are_checked(
    a: &ExampleEnhancedAction,
    input: &Value,
    message: Option<&Value>,
    delay: Option<&Value>,
    r: Result<(), DaggerError>,
    n: u64,
)
    requires
        call_ensures(ExampleEnhancedAction::validate_input, (a, input), r),
        call_ensures(Value::get, (input, "message"), message),
        call_ensures(Value::get, (input, "delay_ms"), delay),
    ensures
        message is None ==> (r matches Err(DaggerError::Validation { message, .. }) && message@ == "Message field is required"@),
        message is Some && delay is None ==> r is Ok,
        message is Some && delay is Some && !(delay->0@ is Number) ==> (r matches Err(DaggerError::Validation { message, .. })
            && message@ == "delay_ms must be a number \u{2264} 60000"@),
        message is Some && delay is Some && delay->0@ == Json::Number(decimal(n as nat)) ==> (r is Ok <==> n <= 60_000),
{
    if message is Some && delay is Some && delay->0@ == Json::Number(decimal(n as nat)) {
        if n > 60_000 {
            assert(n > 60000 && delay->0@ == Json::Number(decimal(n as nat)));
        }
        assert forall|m: u64| #![trigger decimal(m as nat)] m > 60000 && delay->0@ == Json::Number(decimal(m as nat)) implies m == n by {
            crate::text::decimal_injective(m as nat, n as nat);
        }
    }
}

/// The example says what it processed, for which node and when.
pub proof fn example_answers_its_message(
    a: &ExampleEnhancedAction,
    id: &str,
    config: &Value,
    at: &str,
    r: ExampleRun,
    message: Option<&Value>,
)
    requires
        call_ensures(ExampleEnhancedAction::execute, (a, id, config, at), r),
        call_ensures(Value::get, (config, "message"), message),
    ensures
        r.operation@ == "action_"@ + a.title(),
        r.result@ is Object && r.result@->Object_0.len() == 4,
        r.result@->Object_0[0] == ("action"@, Json::String(a.title())),
        r.result@->Object_0[1] == ("node_id"@, Json::String(id@)),
        r.result@->Object_0[2] == ("processed_at"@, Json::String(at@)),
        message is Some && message->0@ is String ==> r.result@->Object_0[3] == (
            "result"@,
            Json::String("Processed: "@ + message->0@->String_0),
        ),
        message is None || !(message->0@ is String) ==> r.result@->Object_0[3] == (
            "result"@,
            Json::String("Processed: "@ + "No message"@),
        ),
{
}

} // verus!
