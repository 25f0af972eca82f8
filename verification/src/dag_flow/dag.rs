//! The graph that a workflow definition describes.

use super::node::{node_views, Graph, Node};
use crate::coord::registry::ActionRegistry;
use crate::graph::{cyclic, Digraph, MAX_ELEMENTS};
use crate::string_map::StringMap;
use crate::text::{cat5, contains, views};
use vstd::prelude::*;

verus! {

/// The nodes of a workflow and the edges from each dependency to the nodes that need it.
pub struct Dag {
    /// The edges, over positions in `nodes`.
    pub graph: Digraph,
    /// The nodes.
    pub nodes: Vec<Node>,
    /// Where each node stands; the last one, where several share an id.
    pub indices: StringMap<usize>,
}

/// Whether some node is called `id`.
pub open spec fn has_node(nodes: Seq<Node>, id: Seq<char>) -> bool {
    exists|i: int| 0 <= i < nodes.len() && (#[trigger] nodes[i]).id@ == id
}

/// Whether `indices` says where the last node of each id stands.
pub open spec fn locates(indices: Map<Seq<char>, usize>, nodes: Seq<Node>) -> bool {
    &&& forall|k: Seq<char>| #[trigger] indices.contains_key(k) <==> has_node(nodes, k)
    &&& forall|k: Seq<char>| #[trigger]
        indices.contains_key(k) ==> indices[k] < nodes.len() && nodes[indices[k] as int].id@ == k
    &&& forall|k: Seq<char>, j: int|
        #![trigger indices[k], nodes[j]]
        indices.contains_key(k) && indices[k] < j < nodes.len() ==> nodes[j].id@ != k
}

/// The edges into `target` from each of `deps`.
pub open spec fn edges_into(indices: Map<Seq<char>, usize>, deps: Seq<String>, target: nat) -> Seq<(nat, nat)> {
    Seq::new(deps.len(), |j: int| (indices[deps[j]@] as nat, target))
}

/// The edges of all nodes: from each dependency to the node that needs it.
pub open spec fn all_edges(indices: Map<Seq<char>, usize>, nodes: Seq<Node>) -> Seq<(nat, nat)>
    decreases nodes.len(),
{
    if nodes.len() == 0 {
        Seq::empty()
    } else {
        all_edges(indices, nodes.drop_last()) + edges_into(
            indices,
            nodes.last().dependencies@,
            indices[nodes.last().id@] as nat,
        )
    }
}

/// How many dependencies the nodes have together.
pub open spec fn dependency_count(nodes: Seq<Node>) -> nat
    decreases nodes.len(),
{
    if nodes.len() == 0 {
        0
    } else {
        dependency_count(nodes.drop_last()) + nodes.last().dependencies@.len()
    }
}

impl Dag {
    /// Each node has its position, each dependency is a node, and the edges lead from each
    /// dependency to the node that needs it.
    pub open spec fn wf(&self) -> bool {
        &&& self.graph.wf()
        &&& self.graph.size() == self.nodes@.len()
        &&& self.nodes@.len() <= MAX_ELEMENTS + 1
        &&& locates(self.indices@, self.nodes@)
        &&& all_dependencies_known(self.nodes@, self.indices@)
        &&& self.graph.edges() == all_edges(self.indices@, self.nodes@)
    }
}

/// A node with a new id, added last, adds the edges from its dependencies.
pub proof fn lemma_edges_push(indices: Map<Seq<char>, usize>, nodes: Seq<Node>, node: Node)
    requires
        locates(indices, nodes),
        all_dependencies_known(nodes, indices),
        dependencies_known(node, indices),
        !indices.contains_key(node.id@),
        nodes.len() <= MAX_ELEMENTS,
    ensures
        all_dependencies_known(nodes.push(node), indices.insert(node.id@, nodes.len() as usize)),
        all_edges(indices.insert(node.id@, nodes.len() as usize), nodes.push(node)) == all_edges(indices, nodes)
            + edges_into(indices, node.dependencies@, nodes.len()),
{
    let m = indices.insert(node.id@, nodes.len() as usize);
    let after = nodes.push(node);
    assert forall|a: int| 0 <= a < after.len() implies dependencies_known(#[trigger] after[a], m) by {
        if a < nodes.len() {
            assert(dependencies_known(nodes[a], indices));
        }
        assert forall|b: int| 0 <= b < after[a].dependencies@.len() implies m.contains_key(
            #[trigger] after[a].dependencies@[b]@,
        ) by {
            assert(indices.contains_key(after[a].dependencies@[b]@));
        }
    }
    lemma_edges_unchanged(indices, m, nodes, nodes.len() as int);
    assert(nodes.take(nodes.len() as int) =~= nodes);
    assert(after.drop_last() =~= nodes);
    assert forall|b: int| 0 <= b < node.dependencies@.len() implies m[node.dependencies@[b]@] == indices[node.dependencies@[b]@] by {
        assert(indices.contains_key(node.dependencies@[b]@));
    }
    assert(edges_into(m, node.dependencies@, nodes.len()) =~= edges_into(indices, node.dependencies@, nodes.len()));
}

proof fn lemma_edges_unchanged(indices: Map<Seq<char>, usize>, m: Map<Seq<char>, usize>, nodes: Seq<Node>, n: int)
    requires
        0 <= n <= nodes.len(),
        locates(indices, nodes),
        all_dependencies_known(nodes, indices),
        forall|k: Seq<char>| #[trigger] indices.contains_key(k) ==> m[k] == indices[k],
    ensures
        all_edges(m, nodes.take(n)) == all_edges(indices, nodes.take(n)),
    decreases n,
{
    if n > 0 {
        lemma_edges_unchanged(indices, m, nodes, n - 1);
        let node = nodes[n - 1];
        assert(nodes.take(n).drop_last() =~= nodes.take(n - 1));
        assert(has_node(nodes, node.id@));
        assert(indices.contains_key(node.id@));
        assert(dependencies_known(node, indices));
        assert forall|b: int| 0 <= b < node.dependencies@.len() implies m[node.dependencies@[b]@] == indices[node.dependencies@[b]@] by {
            assert(indices.contains_key(node.dependencies@[b]@));
        }
        assert(edges_into(m, node.dependencies@, m[node.id@] as nat) =~= edges_into(
            indices,
            node.dependencies@,
            indices[node.id@] as nat,
        ));
    }
}

/// Nodes with the same ids and dependencies have the same edges.
pub proof fn lemma_same_edges(indices: Map<Seq<char>, usize>, a: Seq<Node>, b: Seq<Node>)
    requires
        a.len() == b.len(),
        forall|j: int| 0 <= j < a.len() ==> (#[trigger] a[j])@ == b[j]@,
    ensures
        all_edges(indices, a) == all_edges(indices, b),
        all_dependencies_known(a, indices) ==> all_dependencies_known(b, indices),
    decreases a.len(),
{
    assert forall|j: int, k: int| 0 <= j < a.len() && 0 <= k < b[j].dependencies@.len() implies a[j].dependencies@.len()
        == b[j].dependencies@.len() && a[j].dependencies@[k]@ == (#[trigger] b[j].dependencies@[k])@ by {
        assert(a[j]@.dependencies == b[j]@.dependencies);
        assert(views(a[j].dependencies@).len() == a[j].dependencies@.len());
        assert(views(a[j].dependencies@)[k] == views(b[j].dependencies@)[k]);
    }
    if a.len() > 0 {
        assert forall|j: int| 0 <= j < a.drop_last().len() implies (#[trigger] a.drop_last()[j])@ == b.drop_last()[j]@ by {
            assert(a[j]@ == b[j]@);
        }
        lemma_same_edges(indices, a.drop_last(), b.drop_last());
        let x = a.last();
        let y = b.last();
        assert(x@ == y@);
        assert(views(x.dependencies@).len() == x.dependencies@.len());
        assert(views(y.dependencies@).len() == y.dependencies@.len());
        assert forall|k: int| 0 <= k < x.dependencies@.len() implies x.dependencies@[k]@ == y.dependencies@[k]@ by {
            assert(views(x.dependencies@)[k] == views(y.dependencies@)[k]);
        }
        assert(edges_into(indices, x.dependencies@, indices[x.id@] as nat) =~= edges_into(
            indices,
            y.dependencies@,
            indices[y.id@] as nat,
        ));
    }
    if all_dependencies_known(a, indices) {
        assert forall|j: int| 0 <= j < b.len() implies dependencies_known(#[trigger] b[j], indices) by {
            assert(dependencies_known(a[j], indices));
            assert forall|k: int| 0 <= k < b[j].dependencies@.len() implies indices.contains_key(
                #[trigger] b[j].dependencies@[k]@,
            ) by {
                assert(a[j].dependencies@[k]@ == b[j].dependencies@[k]@);
            }
        }
    }
}

/// Checks that no node depends on itself over one or more steps.
pub fn validate_dag_structure(dag: &Digraph) -> (r: Result<(), String>)
    ensures
        r is Ok <==> !cyclic(dag.edges()),
        r matches Err(e) ==> e@ == "The graph is not a DAG as it contains cycles."@,
{
    if dag.is_cyclic() {
        return Err("The graph is not a DAG as it contains cycles.".to_owned());
    }
    Ok(())
}

/// Dependency `j` of node `i` is the first, in reading order, that is not known.
pub open spec fn first_unknown_dependency(nodes: Seq<Node>, known: Map<Seq<char>, usize>, i: int, j: int) -> bool {
    &&& 0 <= i < nodes.len()
    &&& 0 <= j < nodes[i].dependencies@.len()
    &&& !known.contains_key(nodes[i].dependencies@[j]@)
    &&& forall|b: int| 0 <= b < j ==> known.contains_key(#[trigger] nodes[i].dependencies@[b]@)
    &&& forall|a: int| 0 <= a < i ==> dependencies_known(#[trigger] nodes[a], known)
}

/// Whether all dependencies of `node` are known.
pub open spec fn dependencies_known(node: Node, known: Map<Seq<char>, usize>) -> bool {
    forall|b: int| 0 <= b < node.dependencies@.len() ==> known.contains_key(#[trigger] node.dependencies@[b]@)
}

/// Whether all dependencies of all nodes are known.
pub open spec fn all_dependencies_known(nodes: Seq<Node>, known: Map<Seq<char>, usize>) -> bool {
    forall|a: int| 0 <= a < nodes.len() ==> dependencies_known(#[trigger] nodes[a], known)
}

/// Says that the dependency `dep` of the node `id` is not known.
pub open spec fn unknown_dependency_text(dep: Seq<char>, id: Seq<char>) -> Seq<char> {
    "Dependency '"@ + dep + "' for node '"@ + id + "' not found."@
}

/// Checks that every dependency is a node.
pub fn validate_node_dependencies(nodes: &Vec<Node>, node_indices: &StringMap<usize>) -> (r: Result<(), String>)
    ensures
        r is Ok <==> all_dependencies_known(nodes@, node_indices@),
        r matches Err(e) ==> exists|i: int, j: int| #[trigger]
            first_unknown_dependency(nodes@, node_indices@, i, j) && e@ == unknown_dependency_text(
                nodes@[i].dependencies@[j]@,
                nodes@[i].id@,
            ),
{
    let mut i: usize = 0;
    while i < nodes.len()
        invariant
            i <= nodes.len(),
            forall|a: int| 0 <= a < i ==> dependencies_known(#[trigger] nodes@[a], node_indices@),
        decreases nodes.len() - i,
    {
        let mut j: usize = 0;
        while j < nodes[i].dependencies.len()
            invariant
                i < nodes.len(),
                j <= nodes@[i as int].dependencies@.len(),
                forall|a: int| 0 <= a < i ==> dependencies_known(#[trigger] nodes@[a], node_indices@),
                forall|b: int| 0 <= b < j ==> node_indices@.contains_key(#[trigger] nodes@[i as int].dependencies@[b]@),
            decreases nodes@[i as int].dependencies@.len() - j,
        {
            if !node_indices.contains_key(nodes[i].dependencies[j].as_str()) {
                proof {
                    assert(first_unknown_dependency(nodes@, node_indices@, i as int, j as int));
                    assert(!dependencies_known(nodes@[i as int], node_indices@)) by {
                        assert(!node_indices@.contains_key(nodes@[i as int].dependencies@[j as int]@));
                    }
                }
                return Err(
                    cat5(
                        "Dependency '",
                        nodes[i].dependencies[j].as_str(),
                        "' for node '",
                        nodes[i].id.as_str(),
                        "' not found.",
                    ),
                );
            }
            j = j + 1;
        }
        i = i + 1;
    }
    Ok(())
}

/// Node `i` is the first whose action is not registered.
pub open spec fn first_unknown_action<A>(nodes: Seq<Node>, actions: Map<Seq<char>, A>, i: int) -> bool {
    &&& 0 <= i < nodes.len()
    &&& !actions.contains_key(nodes[i].action@)
    &&& forall|a: int| 0 <= a < i ==> actions.contains_key((#[trigger] nodes[a]).action@)
}

/// Whether the actions of all nodes are registered.
pub open spec fn all_actions_known<A>(nodes: Seq<Node>, actions: Map<Seq<char>, A>) -> bool {
    forall|a: int| 0 <= a < nodes.len() ==> actions.contains_key((#[trigger] nodes[a]).action@)
}

/// Says that the action of the node `id` is not registered.
pub open spec fn unknown_action_text(action: Seq<char>, id: Seq<char>) -> Seq<char> {
    "Action '"@ + action + "' for node '"@ + id + "' is not registered."@
}

/// Checks that the action of every node is registered.
pub fn validate_node_actions<A>(registry: &ActionRegistry<A>, nodes: &Vec<Node>) -> (r: Result<(), String>)
    ensures
        r is Ok <==> all_actions_known(nodes@, registry@),
        r matches Err(e) ==> exists|i: int| #[trigger]
            first_unknown_action(nodes@, registry@, i) && e@ == unknown_action_text(nodes@[i].action@, nodes@[i].id@),
{
    let mut i: usize = 0;
    while i < nodes.len()
        invariant
            i <= nodes.len(),
            forall|a: int| 0 <= a < i ==> registry@.contains_key((#[trigger] nodes@[a]).action@),
        decreases nodes.len() - i,
    {
        if !registry.contains(nodes[i].action.as_str()) {
            proof {
                assert(first_unknown_action(nodes@, registry@, i as int));
            }
            return Err(
                cat5(
                    "Action '",
                    nodes[i].action.as_str(),
                    "' for node '",
                    nodes[i].id.as_str(),
                    "' is not registered.",
                ),
            );
        }
        i = i + 1;
    }
    Ok(())
}

/// What is wrong with the nodes of a definition: an unknown dependency first, else an
/// unknown action, else a cycle.
pub open spec fn definition_problem<A>(nodes: Seq<Node>, known: Map<Seq<char>, usize>, actions: Map<Seq<char>, A>, e: Seq<char>) -> bool {
    if !all_dependencies_known(nodes, known) {
        exists|i: int, j: int| #[trigger]
            first_unknown_dependency(nodes, known, i, j) && e == unknown_dependency_text(nodes[i].dependencies@[j]@, nodes[i].id@)
    } else if !all_actions_known(nodes, actions) {
        exists|i: int| #[trigger]
            first_unknown_action(nodes, actions, i) && e == unknown_action_text(nodes[i].action@, nodes[i].id@)
    } else {
        cyclic(all_edges(known, nodes)) && e == "The graph is not a DAG as it contains cycles."@
    }
}

/// Where `nodes` has the node `k`, its last one.
pub open spec fn located(nodes: Seq<Node>) -> Map<Seq<char>, usize> {
    Map::new(
        |k: Seq<char>| has_node(nodes, k),
        |k: Seq<char>| last_position(nodes, k) as usize,
    )
}

/// The position of the last node called `id`.
pub open spec fn last_position(nodes: Seq<Node>, id: Seq<char>) -> int
    decreases nodes.len(),
{
    if nodes.len() == 0 {
        -1
    } else if nodes.last().id@ == id {
        nodes.len() - 1
    } else {
        last_position(nodes.drop_last(), id)
    }
}

proof fn lemma_last_position(nodes: Seq<Node>, id: Seq<char>)
    ensures
        has_node(nodes, id) <==> last_position(nodes, id) >= 0,
        -1 <= last_position(nodes, id) < nodes.len(),
        last_position(nodes, id) >= 0 ==> nodes[last_position(nodes, id)].id@ == id,
        forall|j: int| last_position(nodes, id) < j < nodes.len() ==> (#[trigger] nodes[j]).id@ != id,
    decreases nodes.len(),
{
    if nodes.len() > 0 {
        let rest = nodes.drop_last();
        lemma_last_position(rest, id);
        if nodes.last().id@ == id {
            assert(nodes[nodes.len() - 1].id@ == id);
        } else {
            if has_node(nodes, id) {
                let i = choose|i: int| 0 <= i < nodes.len() && (#[trigger] nodes[i]).id@ == id;
                assert(rest[i].id@ == id);
            }
            if has_node(rest, id) {
                let i = choose|i: int| 0 <= i < rest.len() && (#[trigger] rest[i]).id@ == id;
                assert(nodes[i].id@ == id);
            }
            assert forall|j: int| last_position(nodes, id) < j < nodes.len() implies (#[trigger] nodes[j]).id@ != id by {
                if j < rest.len() {
                    assert(rest[j].id@ != id);
                }
            }
        }
    }
}

/// What locates the nodes is determined by them.
pub proof fn lemma_located(indices: Map<Seq<char>, usize>, nodes: Seq<Node>)
    requires
        locates(indices, nodes),
    ensures
        indices == located(nodes),
{
    assert forall|k: Seq<char>| indices.contains_key(k) implies indices[k] == located(nodes)[k] by {
        lemma_last_position(nodes, k);
        let p = last_position(nodes, k);
        let q = indices[k] as int;
        assert(nodes[q].id@ == k);
        if p < q {
            assert(nodes[q].id@ != k);
        } else if q < p {
            assert(nodes[p].id@ != k);
        }
    }
    assert(indices =~= located(nodes));
}

/// Builds the graph of a definition. Every dependency has to be a node, every action has to be
/// registered, and no node may depend on itself over one or more steps.
pub fn build_dag_internal<A>(registry: &ActionRegistry<A>, graph: &Graph) -> (r: Result<Dag, String>)
    requires
        graph.nodes@.len() <= MAX_ELEMENTS + 1,
        dependency_count(graph.nodes@) <= MAX_ELEMENTS + 1,
    ensures
        r is Ok <==> all_dependencies_known(graph.nodes@, located(graph.nodes@)) && all_actions_known(
            graph.nodes@,
            registry@,
        ) && !cyclic(all_edges(located(graph.nodes@), graph.nodes@)),
        r matches Ok(dag) ==> dag.wf() && node_views(dag.nodes@) == node_views(graph.nodes@) && dag.indices@ == located(
            graph.nodes@,
        ) && dag.graph.edges() == all_edges(located(graph.nodes@), graph.nodes@),
        r matches Err(e) ==> definition_problem(graph.nodes@, located(graph.nodes@), registry@, e@),
{
    let mut dag = Digraph::new();
    let mut nodes: Vec<Node> = Vec::new();
    let mut indices: StringMap<usize> = StringMap::new();
    let mut i: usize = 0;
    while i < graph.nodes.len()
        invariant
            i <= graph.nodes@.len(),
            graph.nodes@.len() <= MAX_ELEMENTS + 1,
            dag.wf(),
            dag.size() == i,
            dag.edges().len() == 0,
            nodes@.len() == i,
            forall|j: int| 0 <= j < i ==> (#[trigger] nodes@[j])@ == graph.nodes@[j]@,
            locates(indices@, nodes@),
        decreases graph.nodes.len() - i,
    {
        let ghost before = nodes@;
        let ghost before_indices = indices@;
        let position: usize = dag.add_node();
        let node = graph.nodes[i].clone();
        indices.insert(node.id.clone(), position);
        nodes.push(node);
        proof {
            lemma_locates_push(before_indices, before, nodes@.last());
            assert(nodes@ =~= before.push(nodes@.last()));
        }
        i = i + 1;
    }
    proof {
        assert(node_views(nodes@) =~= node_views(graph.nodes@));
        lemma_same_ids(nodes@, graph.nodes@);
        lemma_located(indices@, graph.nodes@);
    }
    match validate_node_dependencies(&graph.nodes, &indices) {
        Ok(()) => {},
        Err(e) => {
            return Err(e);
        },
    }
    match validate_node_actions(registry, &graph.nodes) {
        Ok(()) => {},
        Err(e) => {
            return Err(e);
        },
    }
    let mut i: usize = 0;
    proof {
        assert(graph.nodes@.take(0) =~= Seq::<Node>::empty());
        assert(dag.edges() =~= all_edges(indices@, graph.nodes@.take(0)));
        lemma_count_take(graph.nodes@, 0);
    }
    while i < graph.nodes.len()
        invariant
            i <= graph.nodes@.len(),
            dag.wf(),
            dag.size() == graph.nodes@.len(),
            locates(indices@, graph.nodes@),
            all_dependencies_known(graph.nodes@, indices@),
            dependency_count(graph.nodes@) <= MAX_ELEMENTS + 1,
            dag.edges() == all_edges(indices@, graph.nodes@.take(i as int)),
            dag.edges().len() == dependency_count(graph.nodes@.take(i as int)),
        decreases graph.nodes.len() - i,
    {
        let ghost done = dag.edges();
        let ghost node = graph.nodes@[i as int];
        proof {
            assert(has_node(graph.nodes@, node.id@));
            assert(indices@.contains_key(node.id@));
            assert(dependencies_known(node, indices@));
            lemma_count_take(graph.nodes@, i + 1);
            assert(graph.nodes@.take(i + 1).drop_last() =~= graph.nodes@.take(i as int));
        }
        let target: usize = match indices.get(graph.nodes[i].id.as_str()) {
            Some(t) => *t,
            None => 0,
        };
        let mut j: usize = 0;
        while j < graph.nodes[i].dependencies.len()
            invariant
                i < graph.nodes@.len(),
                node == graph.nodes@[i as int],
                j <= node.dependencies@.len(),
                dag.wf(),
                dag.size() == graph.nodes@.len(),
                target < graph.nodes@.len(),
                locates(indices@, graph.nodes@),
                dependencies_known(node, indices@),
                done.len() + node.dependencies@.len() <= MAX_ELEMENTS + 1,
                dag.edges() == done + edges_into(indices@, node.dependencies@, target as nat).take(j as int),
            decreases node.dependencies@.len() - j,
        {
            proof {
                assert(indices@.contains_key(node.dependencies@[j as int]@));
            }
            let source: usize = match indices.get(graph.nodes[i].dependencies[j].as_str()) {
                Some(s) => *s,
                None => 0,
            };
            dag.add_edge(source, target);
            proof {
                let all = edges_into(indices@, node.dependencies@, target as nat);
                assert(all.take(j + 1) =~= all.take(j as int).push(all[j as int]));
                assert(dag.edges() =~= done + all.take(j + 1));
            }
            j = j + 1;
        }
        proof {
            let all = edges_into(indices@, node.dependencies@, target as nat);
            assert(all.take(j as int) =~= all);
            assert(dag.edges() =~= all_edges(indices@, graph.nodes@.take(i + 1)));
        }
        i = i + 1;
    }
    proof {
        assert(graph.nodes@.take(i as int) =~= graph.nodes@);
        lemma_same_ids(graph.nodes@, nodes@);
        lemma_same_edges(indices@, graph.nodes@, nodes@);
    }
    match validate_dag_structure(&dag) {
        Ok(()) => {},
        Err(e) => {
            return Err(e);
        },
    }
    Ok(Dag { graph: dag, nodes, indices })
}

/// Where there are no edges, there is no cycle.
pub proof fn lemma_no_edges_acyclic(edges: Seq<(nat, nat)>)
    requires
        edges.len() == 0,
    ensures
        !cyclic(edges),
{
    if cyclic(edges) {
        let p = choose|p: Seq<nat>| #[trigger] crate::graph::is_path(edges, p) && p.len() >= 2 && p[0] == p.last();
        assert(crate::graph::joined_at(edges, p, 0));
    }
}

proof fn lemma_count_take(nodes: Seq<Node>, i: int)
    requires
        0 <= i <= nodes.len(),
    ensures
        dependency_count(nodes.take(i)) <= dependency_count(nodes),
        i > 0 ==> dependency_count(nodes.take(i)) == dependency_count(nodes.take(i - 1)) + nodes[i - 1].dependencies@.len(),
        i == 0 ==> dependency_count(nodes.take(i)) == 0,
    decreases nodes.len() - i,
{
    if i < nodes.len() {
        lemma_count_take(nodes, i + 1);
        assert(nodes.take(i + 1).drop_last() =~= nodes.take(i));
    } else {
        assert(nodes.take(i) =~= nodes);
    }
    if i > 0 {
        assert(nodes.take(i).drop_last() =~= nodes.take(i - 1));
    }
}

proof fn lemma_same_ids(a: Seq<Node>, b: Seq<Node>)
    requires
        a.len() == b.len(),
        forall|j: int| 0 <= j < a.len() ==> (#[trigger] a[j])@ == b[j]@,
    ensures
        forall|m: Map<Seq<char>, usize>| locates(m, a) ==> locates(m, b),
        forall|j: int| 0 <= j < a.len() ==> a[j].id@ == (#[trigger] b[j]).id@,
{
    assert forall|j: int| 0 <= j < a.len() implies a[j].id@ == (#[trigger] b[j]).id@ by {
        assert(a[j]@ == b[j]@);
    }
    assert forall|k: Seq<char>| has_node(a, k) <==> has_node(b, k) by {
        if has_node(a, k) {
            let i = choose|i: int| 0 <= i < a.len() && (#[trigger] a[i]).id@ == k;
            assert(b[i].id@ == k);
        }
        if has_node(b, k) {
            let i = choose|i: int| 0 <= i < b.len() && (#[trigger] b[i]).id@ == k;
            assert(a[i].id@ == k);
        }
    }
    assert forall|m: Map<Seq<char>, usize>| locates(m, a) implies locates(m, b) by {
        assert forall|k: Seq<char>, j: int|
            #![trigger m[k], b[j]]
            m.contains_key(k) && m[k] < j < b.len() implies b[j].id@ != k by {
            assert(a[j].id@ != k);
        }
    }
}

/// A node added last is where its id is found.
pub proof fn lemma_locates_push(indices: Map<Seq<char>, usize>, nodes: Seq<Node>, node: Node)
    requires
        locates(indices, nodes),
        nodes.len() <= MAX_ELEMENTS,
    ensures
        locates(indices.insert(node.id@, nodes.len() as usize), nodes.push(node)),
{
    let after = nodes.push(node);
    let m = indices.insert(node.id@, nodes.len() as usize);
    assert forall|k: Seq<char>| #[trigger] m.contains_key(k) <==> has_node(after, k) by {
        if k == node.id@ {
            assert(after[nodes.len() as int].id@ == k);
        }
        if has_node(nodes, k) {
            let i = choose|i: int| 0 <= i < nodes.len() && (#[trigger] nodes[i]).id@ == k;
            assert(after[i].id@ == k);
        }
        if has_node(after, k) && k != node.id@ {
            let i = choose|i: int| 0 <= i < after.len() && (#[trigger] after[i]).id@ == k;
            assert(nodes[i].id@ == k);
        }
        assert(indices.contains_key(k) <==> has_node(nodes, k));
    }
    assert forall|k: Seq<char>| #[trigger] m.contains_key(k) implies m[k] < after.len() && after[m[k] as int].id@ == k by {
        if k != node.id@ {
            assert(indices.contains_key(k));
        }
    }
    assert forall|k: Seq<char>, j: int|
        #![trigger m[k], after[j]]
        m.contains_key(k) && m[k] < j < after.len() implies after[j].id@ != k by {
        if k != node.id@ {
            assert(indices.contains_key(k));
            if j < nodes.len() {
                assert(nodes[j].id@ != k);
            }
        }
    }
}

/// Whether no two nodes share an id.
pub open spec fn ids_differ(nodes: Seq<Node>) -> bool {
    forall|i: int, j: int| 0 <= i < j < nodes.len() ==> (#[trigger] nodes[i]).id@ != (#[trigger] nodes[j]).id@
}

/// Whether node `b` names node `a` among its dependencies.
pub open spec fn depends(nodes: Seq<Node>, b: int, a: int) -> bool {
    exists|j: int| 0 <= j < nodes[b].dependencies@.len() && (#[trigger] nodes[b].dependencies@[j])@ == nodes[a].id@
}

/// Each dependency of a node gives an edge.
pub proof fn lemma_dependency_edge(indices: Map<Seq<char>, usize>, nodes: Seq<Node>, i: int, j: int)
    requires
        0 <= i < nodes.len(),
        0 <= j < nodes[i].dependencies@.len(),
    ensures
        all_edges(indices, nodes).contains((indices[nodes[i].dependencies@[j]@] as nat, indices[nodes[i].id@] as nat)),
    decreases nodes.len(),
{
    let before = all_edges(indices, nodes.drop_last());
    let own = edges_into(indices, nodes.last().dependencies@, indices[nodes.last().id@] as nat);
    let all = all_edges(indices, nodes);
    let e = (indices[nodes[i].dependencies@[j]@] as nat, indices[nodes[i].id@] as nat);
    if i == nodes.len() - 1 {
        assert(all[before.len() + j] == own[j]);
    } else {
        lemma_dependency_edge(indices, nodes.drop_last(), i, j);
        let k = choose|k: int| 0 <= k < before.len() && before[k] == e;
        assert(all[k] == before[k]);
    }
}

/// Each edge comes from a dependency of a node.
pub proof fn lemma_edge_dependency(indices: Map<Seq<char>, usize>, nodes: Seq<Node>, e: (nat, nat)) -> (r: (int, int))
    requires
        all_edges(indices, nodes).contains(e),
    ensures
        0 <= r.0 < nodes.len(),
        0 <= r.1 < nodes[r.0].dependencies@.len(),
        e == (indices[nodes[r.0].dependencies@[r.1]@] as nat, indices[nodes[r.0].id@] as nat),
    decreases nodes.len(),
{
    let all = all_edges(indices, nodes);
    let k = choose|k: int| 0 <= k < all.len() && all[k] == e;
    let before = all_edges(indices, nodes.drop_last());
    let own = edges_into(indices, nodes.last().dependencies@, indices[nodes.last().id@] as nat);
    if k < before.len() {
        assert(before[k] == e);
        lemma_edge_dependency(indices, nodes.drop_last(), e)
    } else {
        assert(own[k - before.len()] == e);
        (nodes.len() - 1, k - before.len())
    }
}

/// Where ids differ, an edge leads from one node to another exactly where the other depends on
/// the one.
pub proof fn lemma_edges_are_dependencies(indices: Map<Seq<char>, usize>, nodes: Seq<Node>, a: nat, b: nat)
    requires
        locates(indices, nodes),
        all_dependencies_known(nodes, indices),
        ids_differ(nodes),
        a < nodes.len(),
        b < nodes.len(),
    ensures
        all_edges(indices, nodes).contains((a, b)) <==> depends(nodes, b as int, a as int),
{
    assert(has_node(nodes, nodes[a as int].id@));
    assert(has_node(nodes, nodes[b as int].id@));
    assert(indices.contains_key(nodes[a as int].id@) && indices.contains_key(nodes[b as int].id@));
    lemma_own_position(indices, nodes, a as int);
    lemma_own_position(indices, nodes, b as int);
    if all_edges(indices, nodes).contains((a, b)) {
        let (i, j) = lemma_edge_dependency(indices, nodes, (a, b));
        assert(has_node(nodes, nodes[i].id@));
        lemma_own_position(indices, nodes, i);
        assert(dependencies_known(nodes[i], indices));
        assert(indices.contains_key(nodes[i].dependencies@[j]@));
    }
    if depends(nodes, b as int, a as int) {
        let j = choose|j: int|
            0 <= j < nodes[b as int].dependencies@.len() && (#[trigger] nodes[b as int].dependencies@[j])@ == nodes[a as int].id@;
        lemma_dependency_edge(indices, nodes, b as int, j);
    }
}

proof fn lemma_own_position(indices: Map<Seq<char>, usize>, nodes: Seq<Node>, i: int)
    requires
        locates(indices, nodes),
        ids_differ(nodes),
        0 <= i < nodes.len(),
    ensures
        indices.contains_key(nodes[i].id@),
        indices[nodes[i].id@] == i,
{
    assert(has_node(nodes, nodes[i].id@));
    assert(indices.contains_key(nodes[i].id@));
    let k = indices[nodes[i].id@] as int;
    if k < i {
        assert(nodes[k].id@ != nodes[i].id@);
    } else if i < k {
        assert(nodes[i].id@ != nodes[k].id@);
    }
}

/// A definition whose nodes have different ids is turned into a graph with an edge from each
/// dependency to each node that names it, and no other; it is refused where a dependency is no
/// node or an action is not registered.
pub proof fn graph_joins_dependencies<A>(registry: &ActionRegistry<A>, graph: &Graph, r: Result<Dag, String>, a: nat, b: nat)
    requires
        call_ensures(build_dag_internal::<A>, (registry, graph), r),
        ids_differ(graph.nodes@),
        a < graph.nodes@.len(),
        b < graph.nodes@.len(),
    ensures
        r matches Ok(dag) ==> dag.nodes@.len() == graph.nodes@.len() && dag.nodes@[a as int]@ == graph.nodes@[a as int]@
            && dag.indices@.contains_key(graph.nodes@[a as int].id@) && dag.indices@[graph.nodes@[a as int].id@] == a,
        r matches Ok(dag) ==> (dag.graph.edges().contains((a, b)) <==> depends(graph.nodes@, b as int, a as int)),
        r is Ok ==> registry@.contains_key(graph.nodes@[a as int].action@),
        (exists|j: int|
            0 <= j < graph.nodes@[b as int].dependencies@.len() && !has_node(
                graph.nodes@,
                (#[trigger] graph.nodes@[b as int].dependencies@[j])@,
            )) ==> r is Err,
{
    let nodes = graph.nodes@;
    if let Ok(dag) = r {
        assert(node_views(dag.nodes@).len() == node_views(nodes).len());
        assert(node_views(dag.nodes@)[a as int] == node_views(nodes)[a as int]);
        assert forall|j: int| 0 <= j < nodes.len() implies (#[trigger] dag.nodes@[j])@ == nodes[j]@ by {
            assert(node_views(dag.nodes@)[j] == node_views(nodes)[j]);
        }
        lemma_same_ids(dag.nodes@, nodes);
        assert(locates(dag.indices@, nodes));
        lemma_own_position(dag.indices@, nodes, a as int);
        lemma_edges_are_dependencies(dag.indices@, nodes, a, b);
        assert(dependencies_known(nodes[b as int], located(nodes)));
    }
}

/// A definition in which nodes depend on each other in a ring is refused.
pub proof fn ring_is_refused<A>(registry: &ActionRegistry<A>, graph: &Graph, r: Result<Dag, String>, ring: Seq<nat>)
    requires
        call_ensures(build_dag_internal::<A>, (registry, graph), r),
        ids_differ(graph.nodes@),
        ring.len() >= 2,
        ring[0] == ring.last(),
        forall|i: int| 0 <= i < ring.len() ==> (#[trigger] ring[i]) < graph.nodes@.len(),
        forall|i: int| 0 <= i < ring.len() - 1 ==> depends(graph.nodes@, ring[i + 1] as int, #[trigger] ring[i] as int),
    ensures
        r is Err,
{
    if let Ok(dag) = r {
        let edges = all_edges(located(graph.nodes@), graph.nodes@);
        assert forall|i: int| 0 <= i < ring.len() - 1 implies #[trigger] crate::graph::joined_at(edges, ring, i) by {
            graph_joins_dependencies(registry, graph, r, ring[i], ring[i + 1]);
        }
        assert(crate::graph::is_path(edges, ring));
    }
}

/// A graph is refused exactly where it has a ring.
pub proof fn rings_are_refused(dag: &Digraph, r: Result<(), String>, ring: Seq<nat>)
    requires
        call_ensures(validate_dag_structure, (dag,), r),
    ensures
        ring.len() >= 2 && ring[0] == ring.last() && (forall|i: int|
            0 <= i < ring.len() - 1 ==> dag.edges().contains((#[trigger] ring[i], ring[i + 1]))) ==> (r matches Err(e) && e@
            == "The graph is not a DAG as it contains cycles."@),
        r is Err ==> exists|found: Seq<nat>|
            found.len() >= 2 && found[0] == found.last() && forall|i: int|
                0 <= i < found.len() - 1 ==> dag.edges().contains((#[trigger] found[i], found[i + 1])),
{
    if ring.len() >= 2 && ring[0] == ring.last() && (forall|i: int|
        0 <= i < ring.len() - 1 ==> dag.edges().contains((#[trigger] ring[i], ring[i + 1]))) {
        assert forall|i: int| 0 <= i < ring.len() - 1 implies #[trigger] crate::graph::joined_at(dag.edges(), ring, i) by {
            assert(dag.edges().contains((ring[i], ring[i + 1])));
        }
        assert(crate::graph::is_path(dag.edges(), ring));
    }
    if r is Err {
        let path = choose|path: Seq<nat>| #[trigger]
            crate::graph::is_path(dag.edges(), path) && path.len() >= 2 && path[0] == path.last();
        assert forall|i: int| 0 <= i < path.len() - 1 implies dag.edges().contains((#[trigger] path[i], path[i + 1])) by {
            assert(crate::graph::joined_at(dag.edges(), path, i));
        }
    }
}

/// Dependencies are in order exactly where each is known, and actions where each is registered;
/// the first that is not is named.
pub proof fn dependencies_and_actions_are_checked<A>(
    nodes: &Vec<Node>,
    known: &StringMap<usize>,
    registry: &ActionRegistry<A>,
    r: Result<(), String>,
    s: Result<(), String>,
)
    requires
        call_ensures(validate_node_dependencies, (nodes, known), r),
        call_ensures(validate_node_actions::<A>, (registry, nodes), s),
    ensures
        r is Ok <==> forall|i: int, j: int|
            0 <= i < nodes@.len() && 0 <= j < nodes@[i].dependencies@.len() ==> known@.contains_key(
                (#[trigger] nodes@[i].dependencies@[j])@,
            ),
        r matches Err(e) ==> exists|i: int, j: int|
            0 <= i < nodes@.len() && 0 <= j < nodes@[i].dependencies@.len() && !known@.contains_key(
                (#[trigger] nodes@[i].dependencies@[j])@,
            ) && e@ == "Dependency '"@ + nodes@[i].dependencies@[j]@ + "' for node '"@ + nodes@[i].id@ + "' not found."@
                && forall|k: int, l: int|
                0 <= k <= i && 0 <= l < nodes@[k].dependencies@.len() && (k < i || l < j) ==> known@.contains_key(
                    (#[trigger] nodes@[k].dependencies@[l])@,
                ),
        s is Ok <==> forall|i: int| 0 <= i < nodes@.len() ==> registry@.contains_key((#[trigger] nodes@[i]).action@),
        s matches Err(e) ==> exists|i: int|
            0 <= i < nodes@.len() && !registry@.contains_key((#[trigger] nodes@[i]).action@) && e@ == "Action '"@
                + nodes@[i].action@ + "' for node '"@ + nodes@[i].id@ + "' is not registered."@ && forall|k: int|
                0 <= k < i ==> registry@.contains_key((#[trigger] nodes@[k]).action@),
{
    if r is Ok {
        assert forall|i: int, j: int| 0 <= i < nodes@.len() && 0 <= j < nodes@[i].dependencies@.len() implies known@.contains_key(
            (#[trigger] nodes@[i].dependencies@[j])@,
        ) by {
            assert(dependencies_known(nodes@[i], known@));
        }
    }
    if forall|i: int, j: int|
        0 <= i < nodes@.len() && 0 <= j < nodes@[i].dependencies@.len() ==> known@.contains_key(
            (#[trigger] nodes@[i].dependencies@[j])@,
        ) {
        assert forall|a: int| 0 <= a < nodes@.len() implies dependencies_known(#[trigger] nodes@[a], known@) by {
            assert forall|b: int| 0 <= b < nodes@[a].dependencies@.len() implies known@.contains_key(
                #[trigger] nodes@[a].dependencies@[b]@,
            ) by {
                assert(known@.contains_key(nodes@[a].dependencies@[b]@));
            }
        }
    }
    if let Err(e) = r {
        let (i, j) = choose|i: int, j: int| #[trigger]
            first_unknown_dependency(nodes@, known@, i, j) && e@ == unknown_dependency_text(
                nodes@[i].dependencies@[j]@,
                nodes@[i].id@,
            );
        assert(!known@.contains_key(nodes@[i].dependencies@[j]@));
        assert forall|k: int, l: int|
            0 <= k <= i && 0 <= l < nodes@[k].dependencies@.len() && (k < i || l < j) implies known@.contains_key(
            (#[trigger] nodes@[k].dependencies@[l])@,
        ) by {
            if k < i {
                assert(dependencies_known(nodes@[k], known@));
            }
        }
    }
    if let Err(e) = s {
        let i = choose|i: int| #[trigger]
            first_unknown_action(nodes@, registry@, i) && e@ == unknown_action_text(nodes@[i].action@, nodes@[i].id@);
        assert(!registry@.contains_key(nodes@[i].action@));
    }
}

} // verus!
