//! Directed graphs over `petgraph`: walks, cycles, topological order and levels.

use petgraph::algo::is_cyclic_directed;
use petgraph::graph::{DiGraph, NodeIndex};
use petgraph::Graph as PetGraph;
use petgraph::visit::{EdgeRef, Topo, Walker};
use petgraph::Direction;
use vstd::prelude::*;

verus! {

/// `petgraph::Graph`, an adjacency-list graph.
#[verifier::external_type_specification]
#[verifier::external_body]
#[verifier::reject_recursive_types(N)]
#[verifier::reject_recursive_types(E)]
#[verifier::reject_recursive_types(Ty)]
#[verifier::reject_recursive_types(Ix)]
pub struct ExPetGraph<N, E, Ty, Ix>(PetGraph<N, E, Ty, Ix>);

/// `petgraph::Directed`, the marker of directed edges.
#[verifier::external_type_specification]
#[verifier::external_body]
pub struct ExDirected(petgraph::Directed);

/// The weights of the nodes of a graph, by node index.
pub uninterp spec fn weights(g: DiGraph<u64, ()>) -> Seq<u64>;

/// The edges of a graph, from source index to target index, in the order in which they
/// were added.
pub uninterp spec fn arcs(g: DiGraph<u64, ()>) -> Seq<(nat, nat)>;

/// More nodes or edges than this a graph with 32-bit indices does not take.
pub const MAX_ELEMENTS: u32 = 0xFFFF_FFFE;

/// `Graph::new`: no node and no edge.
#[verifier::external_body]
fn graph_new() -> (r: DiGraph<u64, ()>)
    ensures
        weights(r).len() == 0,
        arcs(r).len() == 0,
{
    DiGraph::new()
}

/// `Graph::add_node`: the new node comes last and its index is returned. The call panics
/// once the 32-bit indices are used up.
#[verifier::external_body]
fn graph_add_node(g: &mut DiGraph<u64, ()>, weight: u64) -> (r: usize)
    requires
        weights(*old(g)).len() <= MAX_ELEMENTS,
    ensures
        weights(*final(g)) == weights(*old(g)).push(weight),
        arcs(*final(g)) == arcs(*old(g)),
        r == weights(*old(g)).len(),
{
    g.add_node(weight).index()
}

/// `Graph::add_edge`: the new edge comes last. The call panics on an index that is no
/// node's and once the 32-bit indices are used up.
#[verifier::external_body]
fn graph_add_edge(g: &mut DiGraph<u64, ()>, source: usize, target: usize)
    requires
        source < weights(*old(g)).len(),
        target < weights(*old(g)).len(),
        arcs(*old(g)).len() <= MAX_ELEMENTS,
    ensures
        weights(*final(g)) == weights(*old(g)),
        arcs(*final(g)) == arcs(*old(g)).push((source as nat, target as nat)),
{
    g.add_edge(NodeIndex::new(source), NodeIndex::new(target), ());
}

/// `Graph::clone`: the same nodes and edges.
#[verifier::external_body]
fn graph_clone(g: &DiGraph<u64, ()>) -> (r: DiGraph<u64, ()>)
    ensures
        weights(r) == weights(*g),
        arcs(r) == arcs(*g),
{
    g.clone()
}

/// `petgraph::algo::is_cyclic_directed`: whether some node reaches itself over one or more
/// edges. The call recurses as deep as the walk that it follows, which the stack has to hold.
#[verifier::external_body]
fn graph_is_cyclic(g: &DiGraph<u64, ()>) -> (r: bool)
    ensures
        r == cyclic(arcs(*g)),
{
    is_cyclic_directed(g)
}

/// `Graph::neighbors_directed` against the edges: the sources of the edges into `target`.
#[verifier::external_body]
fn graph_sources(g: &DiGraph<u64, ()>, target: usize) -> (r: Vec<usize>)
    requires
        target < weights(*g).len(),
    ensures
        forall|s: usize| r@.contains(s) <==> arcs(*g).contains((s as nat, target as nat)),
{
    g.neighbors_directed(NodeIndex::new(target), Direction::Incoming).map(|n| n.index()).collect()
}

/// `Graph::edge_references`: the source and target of each edge, in the order in which the
/// edges were added.
#[verifier::external_body]
fn graph_edges(g: &DiGraph<u64, ()>) -> (r: Vec<(usize, usize)>)
    ensures
        r@.len() == arcs(*g).len(),
        forall|i: int| 0 <= i < r@.len() ==> (r@[i].0 as nat, (#[trigger] r@[i]).1 as nat) == arcs(*g)[i],
{
    g.edge_references().map(|e| (e.source().index(), e.target().index())).collect()
}

/// `petgraph::visit::Topo`, run to its end: no node comes twice, a node comes after the
/// sources of all edges into it, and every node whose sources all came comes too.
#[verifier::external_body]
fn graph_topo(g: &DiGraph<u64, ()>) -> (r: Vec<usize>)
    ensures
        r@.no_duplicates(),
        forall|i: int| 0 <= i < r@.len() ==> (#[trigger] r@[i]) < weights(*g).len(),
        forall|i: int| 0 <= i < r@.len() ==> sources_within(arcs(*g), #[trigger] r@[i] as nat, r@.take(i)),
        forall|n: usize|
            n < weights(*g).len() && #[trigger] sources_within(arcs(*g), n as nat, r@) ==> r@.contains(n),
{
    Topo::new(g).iter(g).map(|n| n.index()).collect()
}

/// Whether the source of every edge into `target` is listed.
pub open spec fn sources_within(edges: Seq<(nat, nat)>, target: nat, listed: Seq<usize>) -> bool {
    forall|e: (nat, nat)| #[trigger]
        edges.contains(e) && e.1 == target ==> exists|j: int| 0 <= j < listed.len() && (#[trigger] listed[j]) as nat == e.0
}

/// Whether each node of `path` is joined to the next by an edge.
pub open spec fn is_path(edges: Seq<(nat, nat)>, path: Seq<nat>) -> bool {
    &&& path.len() >= 1
    &&& forall|i: int| 0 <= i < path.len() - 1 ==> #[trigger] joined_at(edges, path, i)
}

/// Whether an edge leads from `path[i]` to the node after it.
pub open spec fn joined_at(edges: Seq<(nat, nat)>, path: Seq<nat>, i: int) -> bool {
    edges.contains((path[i], path[i + 1]))
}

/// Whether some node reaches itself over one or more edges.
pub open spec fn cyclic(edges: Seq<(nat, nat)>) -> bool {
    exists|path: Seq<nat>| #[trigger]
        is_path(edges, path) && path.len() >= 2 && path[0] == path.last()
}

/// Whether a walk of `steps` edges ends at `to`.
pub open spec fn reached_in(edges: Seq<(nat, nat)>, to: nat, steps: nat) -> bool {
    exists|path: Seq<nat>| #[trigger] is_path(edges, path) && path.len() == steps + 1 && path.last() == to
}

/// The level of a node: the length of the longest walk that ends there. A node on or
/// behind a cycle has none.
#[verifier::opaque]
pub open spec fn at_level(edges: Seq<(nat, nat)>, node: nat, level: nat) -> bool {
    reached_in(edges, node, level) && !reached_in(edges, node, level + 1)
}

/// A walk followed by an edge is a walk.
pub proof fn lemma_extend(edges: Seq<(nat, nat)>, mid: nat, to: nat, steps: nat)
    requires
        reached_in(edges, mid, steps),
        edges.contains((mid, to)),
    ensures
        reached_in(edges, to, steps + 1),
{
    let p = choose|p: Seq<nat>| #[trigger] is_path(edges, p) && p.len() == steps + 1 && p.last() == mid;
    let q = p.push(to);
    assert forall|i: int| 0 <= i < q.len() - 1 implies #[trigger] joined_at(edges, q, i) by {
        if i < p.len() - 1 {
            assert(joined_at(edges, p, i));
        }
    }
    assert(is_path(edges, q));
}

/// A walk of one edge or more comes over an edge from a node that a shorter walk reaches.
pub proof fn lemma_last_edge(edges: Seq<(nat, nat)>, to: nat, steps: nat) -> (mid: nat)
    requires
        reached_in(edges, to, steps + 1),
    ensures
        edges.contains((mid, to)),
        reached_in(edges, mid, steps),
{
    let p = choose|p: Seq<nat>| #[trigger] is_path(edges, p) && p.len() == steps + 2 && p.last() == to;
    let q = p.drop_last();
    assert(joined_at(edges, p, steps as int));
    assert forall|i: int| 0 <= i < q.len() - 1 implies #[trigger] joined_at(edges, q, i) by {
        assert(joined_at(edges, p, i));
    }
    assert(is_path(edges, q));
    q.last()
}

/// Where a walk ends, shorter ones end too.
pub proof fn lemma_reached_between(edges: Seq<(nat, nat)>, node: nat, low: nat, high: nat)
    requires
        low <= high,
        reached_in(edges, node, high),
    ensures
        reached_in(edges, node, low),
{
    let p = choose|p: Seq<nat>| #[trigger] is_path(edges, p) && p.len() == high + 1 && p.last() == node;
    let d = high - low;
    let q = p.skip(d);
    assert forall|i: int| 0 <= i < q.len() - 1 implies #[trigger] joined_at(edges, q, i) by {
        assert(joined_at(edges, p, i + d));
    }
    assert(is_path(edges, q));
}

/// A node has at most one level.
pub proof fn lemma_level_unique(edges: Seq<(nat, nat)>, node: nat, a: nat, b: nat)
    requires
        at_level(edges, node, a),
        at_level(edges, node, b),
    ensures
        a == b,
{
    reveal(at_level);
    if a < b {
        lemma_reached_between(edges, node, a + 1, b);
    } else if b < a {
        lemma_reached_between(edges, node, b + 1, a);
    }
}

/// A node no edge leads to has level 0.
pub proof fn lemma_root_level(edges: Seq<(nat, nat)>, node: nat)
    requires
        forall|e: (nat, nat)| #[trigger] edges.contains(e) ==> e.1 != node,
    ensures
        at_level(edges, node, 0),
{
    reveal(at_level);
    assert(is_path(edges, seq![node]));
    assert(seq![node].last() == node);
    if reached_in(edges, node, 1) {
        let mid = lemma_last_edge(edges, node, 0);
        assert(edges.contains((mid, node)));
    }
}

/// A node whose sources have levels, the highest of them `top`, has level `top + 1`.
pub proof fn lemma_next_level(edges: Seq<(nat, nat)>, node: nat, best: nat, top: nat)
    requires
        edges.contains((best, node)),
        at_level(edges, best, top),
        forall|e: (nat, nat)|
            #![trigger edges.contains(e)]
            edges.contains(e) && e.1 == node ==> exists|l: nat| l <= top && #[trigger] at_level(edges, e.0, l),
    ensures
        at_level(edges, node, top + 1),
{
    reveal(at_level);
    lemma_extend(edges, best, node, top);
    if reached_in(edges, node, top + 2) {
        let mid = lemma_last_edge(edges, node, top + 1);
        assert(edges.contains((mid, node)));
        let l = choose|l: nat| l <= top && #[trigger] at_level(edges, mid, l);
        lemma_reached_between(edges, mid, l + 1, top + 1);
    }
}

/// A new edge into a node that no edge leaves closes no cycle.
pub proof fn lemma_sink_keeps_acyclic(edges: Seq<(nat, nat)>, source: nat, sink: nat)
    requires
        !cyclic(edges),
        source != sink,
        forall|e: (nat, nat)| #[trigger] edges.contains(e) ==> e.0 != sink,
    ensures
        !cyclic(edges.push((source, sink))),
{
    let after = edges.push((source, sink));
    if cyclic(after) {
        let p = choose|p: Seq<nat>| #[trigger] is_path(after, p) && p.len() >= 2 && p[0] == p.last();
        assert forall|i: int| 0 <= i < p.len() - 1 implies #[trigger] joined_at(edges, p, i) by {
            let e = (p[i], p[i + 1]);
            assert(joined_at(after, p, i));
            assert(after.contains(e));
            let k = choose|k: int| 0 <= k < after.len() && after[k] == e;
            if k == edges.len() {
                assert(p[i + 1] == sink);
                let j = if i + 1 == p.len() - 1 { 0int } else { i + 1 };
                assert(p[j] == sink);
                let f = (p[j], p[j + 1]);
                assert(joined_at(after, p, j));
                assert(after.contains(f));
                let m = choose|m: int| 0 <= m < after.len() && after[m] == f;
                if m < edges.len() {
                    assert(edges.contains(edges[m]));
                }
                assert(false);
            }
            assert(edges[k] == e);
        }
        assert(is_path(edges, p));
    }
}

/// A graph over the positions `0..size()`.
pub struct Digraph {
    inner: DiGraph<u64, ()>,
}

impl Digraph {
    /// How many nodes there are.
    pub closed spec fn size(&self) -> nat {
        weights(self.inner).len()
    }

    /// The edges in the order in which they were added.
    pub closed spec fn edges(&self) -> Seq<(nat, nat)> {
        arcs(self.inner)
    }

    /// Edges join nodes of the graph.
    pub open spec fn wf(&self) -> bool {
        forall|i: int|
            0 <= i < self.edges().len() ==> (#[trigger] self.edges()[i]).0 < self.size() && self.edges()[i].1 < self.size()
    }

    /// The graph without nodes.
    pub fn new() -> (r: Self)
        ensures
            r.wf(),
            r.size() == 0,
            r.edges().len() == 0,
    {
        Digraph { inner: graph_new() }
    }

    /// How many nodes there are, as a number of the program.
    pub fn node_count(&self) -> (r: usize)
        requires
            self.size() <= MAX_ELEMENTS + 1,
        ensures
            r == self.size(),
    {
        graph_len(&self.inner)
    }

    /// Adds a node and returns its position.
    pub fn add_node(&mut self) -> (r: usize)
        requires
            old(self).wf(),
            old(self).size() <= MAX_ELEMENTS,
        ensures
            final(self).wf(),
            final(self).size() == old(self).size() + 1,
            final(self).edges() == old(self).edges(),
            r == old(self).size(),
    {
        let r = graph_add_node(&mut self.inner, 0);
        proof {
            assert forall|i: int| 0 <= i < self.edges().len() implies (#[trigger] self.edges()[i]).0 < self.size()
                && self.edges()[i].1 < self.size() by {
                assert(old(self).edges()[i].0 < old(self).size());
            }
        }
        r
    }

    /// Adds an edge.
    pub fn add_edge(&mut self, source: usize, target: usize)
        requires
            old(self).wf(),
            source < old(self).size(),
            target < old(self).size(),
            old(self).edges().len() <= MAX_ELEMENTS,
        ensures
            final(self).wf(),
            final(self).size() == old(self).size(),
            final(self).edges() == old(self).edges().push((source as nat, target as nat)),
    {
        graph_add_edge(&mut self.inner, source, target);
    }

    /// A copy of the graph.
    pub fn duplicate(&self) -> (r: Self)
        ensures
            r.size() == self.size(),
            r.edges() == self.edges(),
    {
        Digraph { inner: graph_clone(&self.inner) }
    }

    /// Whether some node reaches itself.
    pub fn is_cyclic(&self) -> (r: bool)
        ensures
            r == cyclic(self.edges()),
    {
        graph_is_cyclic(&self.inner)
    }

    /// The nodes from which an edge leads to `target`.
    pub fn sources(&self, target: usize) -> (r: Vec<usize>)
        requires
            target < self.size(),
        ensures
            forall|s: usize| r@.contains(s) <==> self.edges().contains((s as nat, target as nat)),
    {
        graph_sources(&self.inner, target)
    }

    /// The edges in the order in which they were added.
    pub fn edge_list(&self) -> (r: Vec<(usize, usize)>)
        ensures
            r@.len() == self.edges().len(),
            forall|i: int| 0 <= i < r@.len() ==> (r@[i].0 as nat, (#[trigger] r@[i]).1 as nat) == self.edges()[i],
    {
        graph_edges(&self.inner)
    }

    /// The nodes in topological order, as far as there is one: a node on or behind a cycle
    /// is left out.
    pub fn topo_order(&self) -> (r: Vec<usize>)
        ensures
            topological(self.edges(), self.size(), r@),
    {
        graph_topo(&self.inner)
    }
}

/// `Graph::node_count`.
#[verifier::external_body]
fn graph_len(g: &DiGraph<u64, ()>) -> (r: usize)
    ensures
        r == weights(*g).len(),
{
    g.node_count()
}

/// What a topological order lists: each node once and after its sources, and all nodes
/// whose sources are listed.
pub open spec fn topological(edges: Seq<(nat, nat)>, size: nat, order: Seq<usize>) -> bool {
    &&& order.no_duplicates()
    &&& forall|i: int| 0 <= i < order.len() ==> (#[trigger] order[i]) < size
    &&& forall|i: int| 0 <= i < order.len() ==> sources_within(edges, #[trigger] order[i] as nat, order.take(i))
    &&& forall|n: usize| n < size && #[trigger] sources_within(edges, n as nat, order) ==> order.contains(n)
}

} // verus!
