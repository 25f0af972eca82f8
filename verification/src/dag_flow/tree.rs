//! The record of which nodes ran after which.

use super::node::{Graph, Node, NodeExecutionOutcome, OutcomeView};
use crate::graph::{Digraph, MAX_ELEMENTS};
use crate::string_map::StringMap;
use crate::text::{clone_opt, owned, same, views};
use vstd::prelude::*;

verus! {

/// A point in time by a wall clock: seconds since 1970-01-01 and nanoseconds, which reach
/// past one second in a leap second.
#[derive(Debug, Clone, Copy, PartialEq, Eq, Structural)]
pub struct Timestamp {
    pub secs: i64,
    pub nanos: u32,
}

/// What became of a node, when, and with which cache state.
#[derive(Debug)]
pub struct NodeSnapshot {
    pub node_id: String,
    pub outcome: NodeExecutionOutcome,
    pub cache_ref: String,
    pub timestamp: Timestamp,
    /// The channel a message came over.
    pub channel: Option<String>,
    /// The message that was handled.
    pub message_id: Option<String>,
}

/// What a [`NodeSnapshot`] says.
#[verifier::ext_equal]
pub struct SnapshotView {
    pub node_id: Seq<char>,
    pub outcome: OutcomeView,
    pub cache_ref: Seq<char>,
    pub timestamp: Timestamp,
    pub channel: Option<String>,
    pub message_id: Option<String>,
}

impl View for NodeSnapshot {
    type V = SnapshotView;

    open spec fn view(&self) -> SnapshotView {
        SnapshotView {
            node_id: self.node_id@,
            outcome: self.outcome@,
            cache_ref: self.cache_ref@,
            timestamp: self.timestamp,
            channel: self.channel,
            message_id: self.message_id,
        }
    }
}

impl Clone for NodeSnapshot {
    fn clone(&self) -> (r: Self)
        ensures
            r@ == self@,
    {
        NodeSnapshot {
            node_id: self.node_id.clone(),
            outcome: self.outcome.clone(),
            cache_ref: self.cache_ref.clone(),
            timestamp: self.timestamp,
            channel: clone_opt(&self.channel),
            message_id: clone_opt(&self.message_id),
        }
    }
}

/// Why one node stands behind another.
#[derive(Debug)]
pub struct ExecutionEdge {
    pub parent: String,
    pub label: String,
}

impl Clone for ExecutionEdge {
    fn clone(&self) -> (r: Self)
        ensures
            r == *self,
    {
        ExecutionEdge { parent: self.parent.clone(), label: self.label.clone() }
    }
}

/// The record of which nodes ran after which.
pub struct ExecutionTree {
    /// The edges, over positions in `nodes`.
    pub graph: Digraph,
    /// The nodes in the order in which they ran.
    pub nodes: Vec<NodeSnapshot>,
    /// What each edge says, in the order of the edges.
    pub labels: Vec<ExecutionEdge>,
}

/// What an edge says, as texts.
pub open spec fn edge_text(e: ExecutionEdge) -> (Seq<char>, Seq<char>) {
    (e.parent@, e.label@)
}

/// What an [`ExecutionTree`] says.
#[verifier::ext_equal]
pub struct TreeView {
    pub nodes: Seq<SnapshotView>,
    pub edges: Seq<(nat, nat)>,
    pub labels: Seq<(Seq<char>, Seq<char>)>,
}

/// What a list of snapshots says.
pub open spec fn snapshot_views(v: Seq<NodeSnapshot>) -> Seq<SnapshotView> {
    Seq::new(v.len(), |i: int| v[i]@)
}

/// What a list of edges says.
pub open spec fn label_views(v: Seq<ExecutionEdge>) -> Seq<(Seq<char>, Seq<char>)> {
    Seq::new(v.len(), |i: int| edge_text(v[i]))
}

impl View for ExecutionTree {
    type V = TreeView;

    open spec fn view(&self) -> TreeView {
        TreeView {
            nodes: snapshot_views(self.nodes@),
            edges: self.graph.edges(),
            labels: label_views(self.labels@),
        }
    }
}

/// The first node called `id`.
pub open spec fn first_at(nodes: Seq<SnapshotView>, id: Seq<char>, i: int) -> bool {
    &&& 0 <= i < nodes.len()
    &&& nodes[i].node_id == id
    &&& forall|j: int| 0 <= j < i ==> (#[trigger] nodes[j]).node_id != id
}

/// The position of the first node called `id`, where there is one.
pub open spec fn first_position(nodes: Seq<SnapshotView>, id: Seq<char>) -> Option<int> {
    if exists|i: int| first_at(nodes, id, i) {
        Some(choose|i: int| first_at(nodes, id, i))
    } else {
        None
    }
}

/// A tree with an edge from the first node called `parent` to the node at `target`, where
/// there is such a node.
pub open spec fn linked(t: TreeView, parent: Seq<char>, target: nat, label: Seq<char>) -> TreeView {
    match first_position(t.nodes, parent) {
        Some(i) => TreeView {
            edges: t.edges.push((i as nat, target)),
            labels: t.labels.push((parent, label)),
            ..t
        },
        None => t,
    }
}

/// A tree with edges from the nodes called `parents`, as far as there are such nodes.
pub open spec fn linked_all(t: TreeView, parents: Seq<Seq<char>>, target: nat) -> TreeView
    decreases parents.len(),
{
    if parents.len() == 0 {
        t
    } else {
        linked(linked_all(t, parents.drop_last(), target), parents.last(), target, "executed_after"@)
    }
}

/// A tree with one more node.
pub open spec fn with_snapshot(t: TreeView, s: SnapshotView) -> TreeView {
    TreeView { nodes: t.nodes.push(s), ..t }
}

impl ExecutionTree {
    /// Nodes and edges have their data.
    pub open spec fn wf(&self) -> bool {
        &&& self.graph.wf()
        &&& self.graph.size() == self.nodes@.len()
        &&& self.graph.edges().len() == self.labels@.len()
    }

    /// The tree without nodes.
    pub fn new() -> (r: Self)
        ensures
            r.wf(),
            r@ == (TreeView { nodes: Seq::empty(), edges: Seq::empty(), labels: Seq::empty() }),
    {
        let r = ExecutionTree { graph: Digraph::new(), nodes: Vec::new(), labels: Vec::new() };
        proof {
            assert(r@.nodes =~= Seq::<SnapshotView>::empty());
            assert(r@.labels =~= Seq::<(Seq<char>, Seq<char>)>::empty());
            assert(r@.edges =~= Seq::<(nat, nat)>::empty());
        }
        r
    }

    /// Where the first node called `id` stands.
    pub fn find(&self, id: &str) -> (r: Option<usize>)
        ensures
            r matches Some(i) ==> i < self.nodes@.len() && first_position(self@.nodes, id@) == Some(i as int),
            r is None ==> first_position(self@.nodes, id@) is None,
    {
        let ghost views = self@.nodes;
        let mut i: usize = 0;
        while i < self.nodes.len()
            invariant
                i <= self.nodes@.len(),
                views == self@.nodes,
                forall|j: int| 0 <= j < i ==> (#[trigger] views[j]).node_id != id@,
            decreases self.nodes.len() - i,
        {
            if same(self.nodes[i].node_id.as_str(), id) {
                proof {
                    assert(views[i as int].node_id == id@);
                    assert(first_at(views, id@, i as int));
                    let k = choose|k: int| first_at(views, id@, k);
                    if k < i {
                        assert(views[k].node_id != id@);
                    } else if k > i {
                        assert(views[i as int].node_id == id@);
                    }
                }
                return Some(i);
            }
            i = i + 1;
        }
        proof {
            if exists|k: int| first_at(views, id@, k) {
                let k = choose|k: int| first_at(views, id@, k);
                assert(views[k].node_id == id@);
            }
        }
        None
    }

    fn add(&mut self, snapshot: NodeSnapshot) -> (r: usize)
        requires
            old(self).wf(),
            old(self).nodes@.len() <= MAX_ELEMENTS,
        ensures
            final(self).wf(),
            final(self)@ == with_snapshot(old(self)@, snapshot@),
            final(self).nodes@.len() == old(self).nodes@.len() + 1,
            r == old(self).nodes@.len(),
    {
        let r: usize = self.graph.add_node();
        self.nodes.push(snapshot);
        proof {
            assert(self@.nodes =~= old(self)@.nodes.push(snapshot@));
        }
        r
    }

    fn link(&mut self, parent: &str, target: usize, label: String)
        requires
            old(self).wf(),
            target < old(self).nodes@.len(),
            old(self)@.edges.len() <= MAX_ELEMENTS,
        ensures
            final(self).wf(),
            final(self)@ == linked(old(self)@, parent@, target as nat, label@),
            final(self).nodes@ == old(self).nodes@,
            final(self)@.edges.len() <= old(self)@.edges.len() + 1,
    {
        match self.find(parent) {
            Some(i) => {
                self.graph.add_edge(i, target);
                self.labels.push(ExecutionEdge { parent: owned(parent), label });
                proof {
                    assert(self@.labels =~= old(self)@.labels.push((parent@, label@)));
                }
            },
            None => {},
        }
    }
}

/// Adds a node and, where its parent is known, the edge from the parent.
pub fn update_execution_tree(
    tree: &mut ExecutionTree,
    snapshot: NodeSnapshot,
    parent_id: Option<String>,
    label: Option<String>,
) -> (r: usize)
    requires
        old(tree).wf(),
        old(tree).nodes@.len() <= MAX_ELEMENTS,
        old(tree)@.edges.len() <= MAX_ELEMENTS,
    ensures
        final(tree).wf(),
        r == old(tree).nodes@.len(),
        final(tree)@ == ({
            let grown = with_snapshot(old(tree)@, snapshot@);
            match parent_id {
                Some(p) => linked(
                    grown,
                    p@,
                    r as nat,
                    if label is Some {
                        label->0@
                    } else {
                        "executed_after"@
                    },
                ),
                None => grown,
            }
        }),
{
    let position: usize = tree.add(snapshot);
    if let Some(parent) = parent_id {
        let label: String = match label {
            Some(l) => l,
            None => owned("executed_after"),
        };
        tree.link(parent.as_str(), position, label);
    }
    position
}

/// The snapshot of a node that ran.
pub open spec fn snapshot_of(id: Seq<char>, outcome: OutcomeView, cache_ref: Seq<char>, at: Timestamp) -> SnapshotView {
    SnapshotView { node_id: id, outcome, cache_ref, timestamp: at, channel: None, message_id: None }
}

/// Records that a node ran: it is added, with edges from all nodes that it depends on and
/// that are recorded.
pub fn record_execution_snapshot(
    tree: &mut ExecutionTree,
    node: &Node,
    outcome: &NodeExecutionOutcome,
    cache_ref: &str,
    timestamp: Timestamp,
)
    requires
        old(tree).wf(),
        old(tree).nodes@.len() <= MAX_ELEMENTS,
        old(tree)@.edges.len() + node.dependencies@.len() <= MAX_ELEMENTS + 1,
    ensures
        final(tree).wf(),
        final(tree)@ == linked_all(
            with_snapshot(old(tree)@, snapshot_of(node.id@, outcome@, cache_ref@, timestamp)),
            views(node.dependencies@),
            old(tree).nodes@.len(),
        ),
{
    let snapshot = NodeSnapshot {
        node_id: node.id.clone(),
        outcome: outcome.clone(),
        cache_ref: owned(cache_ref),
        timestamp,
        channel: None,
        message_id: None,
    };
    proof {
        assert(snapshot@ =~= snapshot_of(node.id@, outcome@, cache_ref@, timestamp));
    }
    let position: usize = tree.add(snapshot);
    let ghost base = tree@;
    let ghost parents = views(node.dependencies@);
    let mut j: usize = 0;
    proof {
        assert(parents.take(0) =~= Seq::<Seq<char>>::empty());
    }
    while j < node.dependencies.len()
        invariant
            j <= node.dependencies@.len(),
            parents == views(node.dependencies@),
            tree.wf(),
            position < tree.nodes@.len(),
            base.edges.len() + node.dependencies@.len() <= MAX_ELEMENTS + 1,
            tree@.edges.len() <= base.edges.len() + j,
            tree@ == linked_all(base, parents.take(j as int), position as nat),
        decreases node.dependencies.len() - j,
    {
        proof {
            assert(parents.take(j + 1).drop_last() =~= parents.take(j as int));
            assert(parents.take(j + 1).last() == node.dependencies@[j as int]@);
        }
        tree.link(node.dependencies[j].as_str(), position, owned("executed_after"));
        j = j + 1;
    }
    proof {
        assert(parents.take(j as int) =~= parents);
    }
}

/// Whether a definition has a node called `id`.
pub open spec fn defines(g: Graph, id: Seq<char>) -> bool {
    exists|i: int| 0 <= i < g.nodes@.len() && (#[trigger] g.nodes@[i]).id@ == id
}

/// The position of the node called `id` in a definition.
pub fn node_position(g: &Graph, id: &str) -> (r: Option<usize>)
    ensures
        r is Some <==> defines(*g, id@),
        r matches Some(i) ==> i < g.nodes@.len() && g.nodes@[i as int].id@ == id@ && forall|j: int|
            0 <= j < i ==> (#[trigger] g.nodes@[j]).id@ != id@,
{
    let mut i: usize = 0;
    while i < g.nodes.len()
        invariant
            i <= g.nodes.len(),
            forall|j: int| 0 <= j < i ==> (#[trigger] g.nodes@[j]).id@ != id@,
        decreases g.nodes.len() - i,
    {
        if same(g.nodes[i].id.as_str(), id) {
            return Some(i);
        }
        i = i + 1;
    }
    None
}

/// The first definition that has a node called `id`.
pub fn workflow_of(graphs: &StringMap<Graph>, id: &str) -> (r: Option<usize>)
    ensures
        r is Some <==> exists|i: int| 0 <= i < graphs.pairs().len() && defines((#[trigger] graphs.pairs()[i]).1, id@),
        r matches Some(i) ==> i < graphs.pairs().len() && defines(graphs.pairs()[i as int].1, id@) && forall|j: int|
            0 <= j < i ==> !defines((#[trigger] graphs.pairs()[j]).1, id@),
{
    let n: usize = graphs.len();
    let mut i: usize = 0;
    while i < n
        invariant
            i <= n,
            n == graphs.pairs().len(),
            forall|j: int| 0 <= j < i ==> !defines((#[trigger] graphs.pairs()[j]).1, id@),
        decreases n - i,
    {
        if node_position(graphs.value_at(i), id).is_some() {
            return Some(i);
        }
        i = i + 1;
    }
    None
}

/// An execution tree as lists: each node with its number, each edge with the numbers of the
/// nodes that it joins.
#[derive(Debug)]
pub struct SerializableExecutionTree {
    pub nodes: Vec<(usize, NodeSnapshot)>,
    pub edges: Vec<(usize, usize, ExecutionEdge)>,
}

/// The position of the last node with the number `n`.
pub open spec fn last_numbered(nodes: Seq<(usize, NodeSnapshot)>, n: usize) -> int
    decreases nodes.len(),
{
    if nodes.len() == 0 {
        -1
    } else if nodes.last().0 == n {
        nodes.len() - 1
    } else {
        last_numbered(nodes.drop_last(), n)
    }
}

impl SerializableExecutionTree {
    /// Every edge joins nodes that are listed.
    pub open spec fn closed_over(&self) -> bool {
        forall|k: int|
            0 <= k < self.edges@.len() ==> last_numbered(self.nodes@, (#[trigger] self.edges@[k]).0) >= 0 && last_numbered(
                self.nodes@,
                self.edges@[k].1,
            ) >= 0
    }

    /// The tree that the lists describe.
    pub open spec fn tree(&self) -> TreeView {
        TreeView {
            nodes: Seq::new(self.nodes@.len(), |i: int| self.nodes@[i].1@),
            edges: Seq::new(
                self.edges@.len(),
                |k: int|
                    (
                        last_numbered(self.nodes@, self.edges@[k].0) as nat,
                        last_numbered(self.nodes@, self.edges@[k].1) as nat,
                    ),
            ),
            labels: Seq::new(self.edges@.len(), |k: int| edge_text(self.edges@[k].2)),
        }
    }

    /// The lists of a tree.
    pub fn from_execution_tree(tree: &ExecutionTree) -> (r: Self)
        requires
            tree.wf(),
        ensures
            r.nodes@.len() == tree.nodes@.len(),
            forall|i: int| 0 <= i < r.nodes@.len() ==> (#[trigger] r.nodes@[i]).0 == i && r.nodes@[i].1@ == tree.nodes@[i]@,
            r.edges@.len() == tree@.edges.len(),
            forall|k: int|
                0 <= k < r.edges@.len() ==> (#[trigger] r.edges@[k]).0 as nat == tree@.edges[k].0 && r.edges@[k].1 as nat
                    == tree@.edges[k].1 && edge_text(r.edges@[k].2) == tree@.labels[k],
            r.closed_over(),
            r.tree() == tree@,
    {
        let mut nodes: Vec<(usize, NodeSnapshot)> = Vec::new();
        let mut i: usize = 0;
        while i < tree.nodes.len()
            invariant
                i <= tree.nodes@.len(),
                nodes@.len() == i,
                forall|j: int| 0 <= j < i ==> (#[trigger] nodes@[j]).0 == j && nodes@[j].1@ == tree.nodes@[j]@,
            decreases tree.nodes.len() - i,
        {
            nodes.push((i, tree.nodes[i].clone()));
            i = i + 1;
        }
        let list = tree.graph.edge_list();
        let mut edges: Vec<(usize, usize, ExecutionEdge)> = Vec::new();
        let mut k: usize = 0;
        while k < list.len()
            invariant
                k <= list@.len(),
                tree.wf(),
                list@.len() == tree.graph.edges().len(),
                forall|i: int| 0 <= i < list@.len() ==> (list@[i].0 as nat, (#[trigger] list@[i]).1 as nat) == tree.graph.edges()[i],
                edges@.len() == k,
                forall|j: int|
                    0 <= j < k ==> (#[trigger] edges@[j]).0 as nat == tree@.edges[j].0 && edges@[j].1 as nat == tree@.edges[j].1
                        && edge_text(edges@[j].2) == tree@.labels[j],
            decreases list.len() - k,
        {
            edges.push((list[k].0, list[k].1, tree.labels[k].clone()));
            k = k + 1;
        }
        let r = SerializableExecutionTree { nodes, edges };
        proof {
            assert forall|n: usize| n < r.nodes@.len() implies #[trigger] last_numbered(r.nodes@, n) == n by {
                lemma_numbered_in_order(r.nodes@, n);
            }
            assert forall|k: int| 0 <= k < r.edges@.len() implies last_numbered(r.nodes@, (#[trigger] r.edges@[k]).0) >= 0
                && last_numbered(r.nodes@, r.edges@[k].1) >= 0 by {
                assert(tree.graph.edges()[k].0 < tree.graph.size());
            }
            assert forall|k: int| 0 <= k < r.edges@.len() implies #[trigger] r.tree().edges[k] == tree@.edges[k] by {
                assert(tree.graph.edges()[k].0 < tree.graph.size());
                assert(last_numbered(r.nodes@, r.edges@[k].0) == r.edges@[k].0);
                assert(last_numbered(r.nodes@, r.edges@[k].1) == r.edges@[k].1);
            }
            assert(r.tree().nodes =~= tree@.nodes);
            assert(r.tree().edges =~= tree@.edges);
            assert(r.tree().labels =~= tree@.labels);
        }
        r
    }

    fn position(&self, n: usize) -> (r: usize)
        requires
            last_numbered(self.nodes@, n) >= 0,
        ensures
            r == last_numbered(self.nodes@, n),
            r < self.nodes@.len(),
    {
        let mut i: usize = self.nodes.len();
        proof {
            assert(self.nodes@.take(i as int) =~= self.nodes@);
        }
        while i > 0
            invariant
                i <= self.nodes@.len(),
                last_numbered(self.nodes@.take(i as int), n) == last_numbered(self.nodes@, n),
                last_numbered(self.nodes@, n) >= 0,
            decreases i,
        {
            let ghost front = self.nodes@.take(i as int);
            proof {
                assert(front.drop_last() =~= self.nodes@.take(i - 1));
                assert(front.last() == self.nodes@[i - 1]);
            }
            if self.nodes[i - 1].0 == n {
                return i - 1;
            }
            i = i - 1;
        }
        proof {
            assert(self.nodes@.take(0) =~= Seq::<(usize, NodeSnapshot)>::empty());
        }
        0
    }

    /// The tree that the lists describe. Every edge has to join nodes that are listed.
    pub fn to_execution_tree(&self) -> (r: ExecutionTree)
        requires
            self.closed_over(),
            self.nodes@.len() <= MAX_ELEMENTS + 1,
            self.edges@.len() <= MAX_ELEMENTS + 1,
        ensures
            r.wf(),
            r@ == self.tree(),
    {
        let mut tree = ExecutionTree::new();
        let mut i: usize = 0;
        proof {
            assert(tree@.nodes =~= self.tree().nodes.take(0));
        }
        while i < self.nodes.len()
            invariant
                i <= self.nodes@.len(),
                self.nodes@.len() <= MAX_ELEMENTS + 1,
                tree.wf(),
                tree.nodes@.len() == i,
                tree@.nodes == self.tree().nodes.take(i as int),
                tree@.edges.len() == 0,
                tree@.labels.len() == 0,
            decreases self.nodes.len() - i,
        {
            let ghost before = tree@;
            tree.add(self.nodes[i].1.clone());
            proof {
                assert(tree@.nodes =~= self.tree().nodes.take(i + 1));
            }
            i = i + 1;
        }
        let mut k: usize = 0;
        proof {
            assert(self.tree().nodes.take(i as int) =~= self.tree().nodes);
            assert(tree@.edges =~= self.tree().edges.take(0));
            assert(tree@.labels =~= self.tree().labels.take(0));
        }
        while k < self.edges.len()
            invariant
                k <= self.edges@.len(),
                self.edges@.len() <= MAX_ELEMENTS + 1,
                self.closed_over(),
                tree.wf(),
                tree.nodes@.len() == self.nodes@.len(),
                tree@.nodes == self.tree().nodes,
                tree@.edges == self.tree().edges.take(k as int),
                tree@.labels == self.tree().labels.take(k as int),
            decreases self.edges.len() - k,
        {
            proof {
                assert(last_numbered(self.nodes@, self.edges@[k as int].0) >= 0);
            }
            let source: usize = self.position(self.edges[k].0);
            let target: usize = self.position(self.edges[k].1);
            let ghost before = tree@;
            tree.graph.add_edge(source, target);
            tree.labels.push(self.edges[k].2.clone());
            proof {
                assert(tree@.edges =~= self.tree().edges.take(k + 1));
                assert(tree@.labels =~= self.tree().labels.take(k + 1)) by {
                    assert(tree@.labels =~= before.labels.push(edge_text(self.edges@[k as int].2)));
                }
            }
            k = k + 1;
        }
        proof {
            assert(self.tree().edges.take(k as int) =~= self.tree().edges);
            assert(self.tree().labels.take(k as int) =~= self.tree().labels);
        }
        tree
    }
}

proof fn lemma_numbered_in_order(nodes: Seq<(usize, NodeSnapshot)>, n: usize)
    requires
        forall|i: int| 0 <= i < nodes.len() ==> (#[trigger] nodes[i]).0 == i,
    ensures
        n < nodes.len() ==> last_numbered(nodes, n) == n,
    decreases nodes.len(),
{
    if nodes.len() > 0 {
        let rest = nodes.drop_last();
        assert forall|i: int| 0 <= i < rest.len() implies (#[trigger] rest[i]).0 == i by {
            assert(nodes[i].0 == i);
        }
        lemma_numbered_in_order(rest, n);
        assert(nodes[nodes.len() - 1].0 == nodes.len() - 1);
    }
}

/// The lists of a tree describe that tree: what is saved is what is loaded.
pub proof fn saved_tree_is_loaded(tree: ExecutionTree, saved: SerializableExecutionTree, loaded: ExecutionTree)
    requires
        saved.tree() == tree@,
        loaded@ == saved.tree(),
    ensures
        loaded@ == tree@,
{
}

proof fn lemma_first_position(nodes: Seq<SnapshotView>, id: Seq<char>, i: int)
    requires
        first_at(nodes, id, i),
    ensures
        first_position(nodes, id) == Some(i),
{
    let k = choose|k: int| first_at(nodes, id, k);
    assert(first_at(nodes, id, k));
    if k < i {
        assert(nodes[k].node_id != id);
    } else if i < k {
        assert(nodes[i].node_id != id);
    }
}

/// A node that is found is the first that has the id, and one is found wherever there is one.
pub proof fn first_node_is_found(tree: &ExecutionTree, id: &str, r: Option<usize>)
    requires
        call_ensures(ExecutionTree::find, (tree, id), r),
    ensures
        r matches Some(i) ==> i < tree.nodes@.len() && tree.nodes@[i as int].node_id@ == id@ && forall|j: int|
            0 <= j < i ==> (#[trigger] tree.nodes@[j]).node_id@ != id@,
        r is None ==> forall|j: int| 0 <= j < tree.nodes@.len() ==> (#[trigger] tree.nodes@[j]).node_id@ != id@,
{
    let nodes = tree@.nodes;
    if let Some(i) = r {
        let k = choose|k: int| first_at(nodes, id@, k);
        assert(first_at(nodes, id@, i as int));
        assert forall|j: int| 0 <= j < i implies (#[trigger] tree.nodes@[j]).node_id@ != id@ by {
            assert(nodes[j].node_id != id@);
        }
    } else {
        assert forall|j: int| 0 <= j < tree.nodes@.len() implies (#[trigger] tree.nodes@[j]).node_id@ != id@ by {
            if tree.nodes@[j].node_id@ == id@ {
                let k = lemma_some_first(nodes, id@, j);
                assert(first_at(nodes, id@, k));
            }
        }
    }
}

proof fn lemma_some_first(nodes: Seq<SnapshotView>, id: Seq<char>, j: int) -> (k: int)
    requires
        0 <= j < nodes.len(),
        nodes[j].node_id == id,
    ensures
        first_at(nodes, id, k),
    decreases j,
{
    if exists|i: int| 0 <= i < j && (#[trigger] nodes[i]).node_id == id {
        let i = choose|i: int| 0 <= i < j && (#[trigger] nodes[i]).node_id == id;
        lemma_some_first(nodes, id, i)
    } else {
        j
    }
}

/// A node that ran is recorded last; where its parent is known, an edge leads from the first node
/// of that name to it, with the label; all that was recorded stays.
pub proof fn recorded_node_hangs_on_its_parent(
    tree: &mut ExecutionTree,
    snapshot: NodeSnapshot,
    parent: Option<String>,
    label: Option<String>,
    r: usize,
    i: int,
)
    requires
        call_ensures(update_execution_tree, (tree, snapshot, parent, label), r),
        old(tree).wf(),
    ensures
        r == old(tree)@.nodes.len(),
        final(tree)@.nodes == old(tree)@.nodes.push(snapshot@),
        parent is None ==> final(tree)@.edges == old(tree)@.edges,
        parent is Some && 0 <= i < old(tree)@.nodes.len() && old(tree)@.nodes[i].node_id == parent->0@ && (forall|j: int|
            0 <= j < i ==> (#[trigger] old(tree)@.nodes[j]).node_id != parent->0@) ==> final(tree)@.edges == old(tree)@.edges.push(
            (i as nat, r as nat),
        ) && final(tree)@.labels == old(tree)@.labels.push(
            (
                parent->0@,
                if label is Some {
                    label->0@
                } else {
                    "executed_after"@
                },
            ),
        ),
        parent is Some && snapshot.node_id@ != parent->0@ && (forall|j: int|
            0 <= j < old(tree)@.nodes.len() ==> (#[trigger] old(tree)@.nodes[j]).node_id != parent->0@) ==> final(tree)@.edges
            == old(tree)@.edges,
{
    if parent is Some && 0 <= i < old(tree)@.nodes.len() && old(tree)@.nodes[i].node_id == parent->0@ && (forall|j: int|
        0 <= j < i ==> (#[trigger] old(tree)@.nodes[j]).node_id != parent->0@) {
        let grown = with_snapshot(old(tree)@, snapshot@);
        assert forall|j: int| 0 <= j < i implies (#[trigger] grown.nodes[j]).node_id != parent->0@ by {
            assert(grown.nodes[j] == old(tree)@.nodes[j]);
        }
        assert(first_at(grown.nodes, parent->0@, i));
        lemma_first_position(grown.nodes, parent->0@, i);
    }
    if parent is Some && snapshot.node_id@ != parent->0@ && (forall|j: int|
        0 <= j < old(tree)@.nodes.len() ==> (#[trigger] old(tree)@.nodes[j]).node_id != parent->0@) {
        let grown = with_snapshot(old(tree)@, snapshot@);
        assert forall|k: int| !first_at(grown.nodes, parent->0@, k) by {
            if 0 <= k < old(tree)@.nodes.len() {
                assert(grown.nodes[k] == old(tree)@.nodes[k]);
            }
        }
    }
}

/// The edges that a node gets lead from the first recorded node of each of its dependencies, in
/// order; a dependency that is not recorded gives none.
pub proof fn lemma_linked(t: TreeView, parents: Seq<Seq<char>>, target: nat, p: int, i: int)
    requires
        0 <= p < parents.len(),
        first_at(t.nodes, parents[p], i),
    ensures
        linked_all(t, parents, target).edges.contains((i as nat, target)),
        linked_all(t, parents, target).nodes == t.nodes,
    decreases parents.len(),
{
    lemma_linked_nodes(t, parents.drop_last(), target);
    let before = linked_all(t, parents.drop_last(), target);
    let after = linked_all(t, parents, target);
    if p == parents.len() - 1 {
        lemma_first_position(t.nodes, parents[p], i);
        assert(after.edges[before.edges.len() as int] == (i as nat, target));
    } else {
        lemma_linked(t, parents.drop_last(), target, p, i);
        let k = choose|k: int| 0 <= k < before.edges.len() && before.edges[k] == (i as nat, target);
        assert(after.edges[k] == before.edges[k]);
    }
}

proof fn lemma_linked_nodes(t: TreeView, parents: Seq<Seq<char>>, target: nat)
    ensures
        linked_all(t, parents, target).nodes == t.nodes,
        linked_all(t, parents, target).edges.len() >= t.edges.len(),
        forall|k: int| 0 <= k < t.edges.len() ==> (#[trigger] linked_all(t, parents, target).edges[k]) == t.edges[k],
        forall|k: int|
            t.edges.len() <= k < linked_all(t, parents, target).edges.len() ==> (#[trigger] linked_all(t, parents, target).edges[k]).1
                == target,
    decreases parents.len(),
{
    if parents.len() > 0 {
        lemma_linked_nodes(t, parents.drop_last(), target);
    }
}

/// A node that ran is recorded last, with its outcome, the name of the cache state and the time,
/// and an edge leads to it from each node that it depends on and that is recorded.
pub proof fn run_node_is_recorded(
    tree: &mut ExecutionTree,
    node: &Node,
    outcome: &NodeExecutionOutcome,
    cache_ref: &str,
    at: Timestamp,
    p: int,
    i: int,
)
    requires
        call_ensures(record_execution_snapshot, (tree, node, outcome, cache_ref, at), ()),
        old(tree).wf(),
    ensures
        final(tree)@.nodes.len() == old(tree)@.nodes.len() + 1,
        final(tree)@.nodes.last().node_id == node.id@ && final(tree)@.nodes.last().outcome == outcome@ && final(tree)@.nodes.last().cache_ref == cache_ref@ && final(tree)@.nodes.last().timestamp == at,
        forall|k: int| 0 <= k < old(tree)@.nodes.len() ==> (#[trigger] final(tree)@.nodes[k]) == old(tree)@.nodes[k],
        forall|k: int| 0 <= k < old(tree)@.edges.len() ==> (#[trigger] final(tree)@.edges[k]) == old(tree)@.edges[k],
        forall|k: int|
            old(tree)@.edges.len() <= k < final(tree)@.edges.len() ==> (#[trigger] final(tree)@.edges[k]).1 == old(tree)@.nodes.len(),
        0 <= p < node.dependencies@.len() && 0 <= i < old(tree)@.nodes.len() && old(tree)@.nodes[i].node_id
            == node.dependencies@[p]@ && (forall|j: int|
            0 <= j < i ==> (#[trigger] old(tree)@.nodes[j]).node_id != node.dependencies@[p]@) ==> final(tree)@.edges.contains(
            (i as nat, old(tree)@.nodes.len()),
        ),
{
    let grown = with_snapshot(old(tree)@, snapshot_of(node.id@, outcome@, cache_ref@, at));
    let parents = views(node.dependencies@);
    let target = old(tree).nodes@.len();
    assert(old(tree)@.nodes.len() == target);
    lemma_linked_nodes(grown, parents, target);
    if 0 <= p < node.dependencies@.len() && 0 <= i < old(tree)@.nodes.len() && old(tree)@.nodes[i].node_id
        == node.dependencies@[p]@ && (forall|j: int|
        0 <= j < i ==> (#[trigger] old(tree)@.nodes[j]).node_id != node.dependencies@[p]@) {
        assert forall|j: int| 0 <= j < i implies (#[trigger] grown.nodes[j]).node_id != parents[p] by {
            assert(grown.nodes[j] == old(tree)@.nodes[j]);
        }
        assert(first_at(grown.nodes, parents[p], i));
        lemma_linked(grown, parents, target, p, i);
    }
}

/// A tree that is turned into lists and back is the same tree.
pub proof fn listed_tree_comes_back(
    tree: &ExecutionTree,
    saved: SerializableExecutionTree,
    again: &SerializableExecutionTree,
    loaded: ExecutionTree,
)
    requires
        call_ensures(SerializableExecutionTree::from_execution_tree, (tree,), saved),
        call_ensures(SerializableExecutionTree::to_execution_tree, (again,), loaded),
        *again == saved,
    ensures
        loaded@.nodes == tree@.nodes,
        loaded@.edges == tree@.edges,
        loaded@.labels == tree@.labels,
{
}

/// A node is found at its first place in a definition, and in the first definition that has it.
pub proof fn nodes_are_located(g: &Graph, graphs: &StringMap<Graph>, id: &str, r: Option<usize>, s: Option<usize>)
    requires
        call_ensures(node_position, (g, id), r),
        call_ensures(workflow_of, (graphs, id), s),
    ensures
        r is None <==> forall|i: int| 0 <= i < g.nodes@.len() ==> (#[trigger] g.nodes@[i]).id@ != id@,
        r matches Some(i) ==> i < g.nodes@.len() && g.nodes@[i as int].id@ == id@ && forall|j: int|
            0 <= j < i ==> (#[trigger] g.nodes@[j]).id@ != id@,
        s is None <==> forall|k: int, i: int|
            0 <= k < graphs.pairs().len() && 0 <= i < graphs.pairs()[k].1.nodes@.len() ==> (
            #[trigger] graphs.pairs()[k].1.nodes@[i]).id@ != id@,
        s matches Some(k) ==> k < graphs.pairs().len() && (exists|i: int|
            0 <= i < graphs.pairs()[k as int].1.nodes@.len() && (#[trigger] graphs.pairs()[k as int].1.nodes@[i]).id@ == id@)
            && forall|l: int, i: int|
            0 <= l < k && 0 <= i < graphs.pairs()[l].1.nodes@.len() ==> (#[trigger] graphs.pairs()[l].1.nodes@[i]).id@ != id@,
{
    let pairs = graphs.pairs();
    if s is None {
        assert forall|k: int, i: int| 0 <= k < pairs.len() && 0 <= i < pairs[k].1.nodes@.len() implies (
        #[trigger] pairs[k].1.nodes@[i]).id@ != id@ by {
            assert(!defines(pairs[k].1, id@));
        }
    }
    if let Some(k) = s {
        assert(defines(pairs[k as int].1, id@));
        assert forall|l: int, i: int| 0 <= l < k && 0 <= i < pairs[l].1.nodes@.len() implies (
        #[trigger] pairs[l].1.nodes@[i]).id@ != id@ by {
            assert(!defines(pairs[l].1, id@));
        }
    }
}

} // verus!
