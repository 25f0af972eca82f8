//! Which nodes can run: levels and readiness.

use super::dag::Dag;
use super::node::Node;
use crate::graph::{
    at_level, is_path, lemma_extend, lemma_level_unique, lemma_next_level, lemma_root_level, reached_in, sources_within,
    topological, MAX_ELEMENTS,
};
use crate::string_map::StringSet;
use vstd::prelude::*;

verus! {

/// `listing[l]` are the positions of the nodes at level `l`, and `r[l]` names them.
pub open spec fn lists_levels(
    edges: Seq<(nat, nat)>,
    nodes: Seq<Node>,
    listing: Seq<Seq<usize>>,
    r: Seq<(usize, Vec<String>)>,
) -> bool {
    &&& listing.len() == r.len()
    &&& forall|l: int| 0 <= l < r.len() ==> (#[trigger] r[l]).0 == l
    &&& forall|l: int| 0 <= l < r.len() ==> names_level(nodes, listing[l], (#[trigger] r[l]).1@)
    &&& forall|l: int, n: usize|
        0 <= l < r.len() ==> (#[trigger] listing[l].contains(n) <==> n < nodes.len() && at_level(edges, n as nat, l as nat))
    &&& forall|n: usize, l: nat| n < nodes.len() && #[trigger] at_level(edges, n as nat, l) ==> l < r.len()
}

/// Whether `r` names the nodes by level: `r[l]` holds `l` and the ids of the nodes at level
/// `l`, each node once.
pub open spec fn by_level(edges: Seq<(nat, nat)>, nodes: Seq<Node>, r: Seq<(usize, Vec<String>)>) -> bool {
    exists|listing: Seq<Seq<usize>>| #[trigger] lists_levels(edges, nodes, listing, r)
}

/// `names` are the ids of the nodes at `positions`, each of which comes once.
pub open spec fn names_level(nodes: Seq<Node>, positions: Seq<usize>, names: Seq<String>) -> bool {
    &&& positions.len() == names.len()
    &&& positions.len() > 0
    &&& positions.no_duplicates()
    &&& forall|j: int| 0 <= j < names.len() ==> positions[j] < nodes.len() && (#[trigger] names[j])@ == nodes[positions[j] as int].id@
}

/// Where the sources of `node` are not all in a complete topological order, walks of any
/// length end there.
proof fn lemma_unlisted_has_walks(edges: Seq<(nat, nat)>, size: nat, order: Seq<usize>, node: usize, steps: nat)
    requires
        topological(edges, size, order),
        size <= MAX_ELEMENTS + 1,
        forall|i: int| 0 <= i < edges.len() ==> (#[trigger] edges[i]).0 < size,
        node < size,
        !order.contains(node),
    ensures
        reached_in(edges, node as nat, steps),
    decreases steps,
{
    if steps == 0 {
        assert(is_path(edges, seq![node as nat]));
        assert(seq![node as nat].last() == node as nat);
    } else {
        assert(!sources_within(edges, node as nat, order));
        let e = choose|e: (nat, nat)| #[trigger]
            edges.contains(e) && e.1 == node as nat && !(exists|j: int| 0 <= j < order.len() && (#[trigger] order[j]) as nat == e.0);
        let k = choose|k: int| 0 <= k < edges.len() && edges[k] == e;
        assert(edges[k].0 < size);
        let s = e.0 as usize;
        assert(!order.contains(s)) by {
            if order.contains(s) {
                let j = choose|j: int| 0 <= j < order.len() && order[j] == s;
                assert(order[j] as nat == e.0);
            }
        }
        lemma_unlisted_has_walks(edges, size, order, s, (steps - 1) as nat);
        lemma_extend(edges, e.0, node as nat, (steps - 1) as nat);
        assert((steps - 1) as nat + 1 == steps);
    }
}

/// What holds of the levels of the first `done` nodes of a topological order.
spec fn levels_so_far(
    edges: Seq<(nat, nat)>,
    size: nat,
    order: Seq<usize>,
    done: int,
    level_of: Seq<usize>,
    levels: Seq<Vec<usize>>,
) -> bool {
    &&& level_of.len() == size
    &&& levels.len() <= done
    &&& forall|i: int| 0 <= i < done ==> placed(edges, level_of, levels, #[trigger] order[i])
    &&& forall|l: int| 0 <= l < levels.len() ==> level_holds(order.take(done), level_of, l, (#[trigger] levels[l])@)
}

/// Node `n` stands in the list of its level.
spec fn placed(edges: Seq<(nat, nat)>, level_of: Seq<usize>, levels: Seq<Vec<usize>>, n: usize) -> bool {
    &&& n < level_of.len()
    &&& at_level(edges, n as nat, level_of[n as int] as nat)
    &&& level_of[n as int] < levels.len()
    &&& levels[level_of[n as int] as int]@.contains(n)
}

/// The list of level `l` is not empty and holds listed nodes of that level, each once.
spec fn level_holds(listed: Seq<usize>, level_of: Seq<usize>, l: int, level: Seq<usize>) -> bool {
    &&& level.len() > 0
    &&& level.no_duplicates()
    &&& forall|j: int| 0 <= j < level.len() ==> listed.contains(#[trigger] level[j]) && level_of[level[j] as int] == l
}

/// Putting the next node of the order into the list of its level.
proof fn lemma_place(
    edges: Seq<(nat, nat)>,
    size: nat,
    order: Seq<usize>,
    done: int,
    level_of: Seq<usize>,
    levels: Seq<Vec<usize>>,
    level: usize,
    after: Seq<Vec<usize>>,
)
    requires
        levels_so_far(edges, size, order, done, level_of, levels),
        topological(edges, size, order),
        0 <= done < order.len(),
        at_level(edges, order[done] as nat, level as nat),
        level <= levels.len(),
        after.len() == (if level < levels.len() {
            levels.len()
        } else {
            levels.len() + 1
        }),
        forall|l: int| 0 <= l < levels.len() && l != level ==> after[l] == levels[l],
        after[level as int]@ == (if level < levels.len() {
            levels[level as int]@.push(order[done])
        } else {
            seq![order[done]]
        }),
    ensures
        levels_so_far(edges, size, order, done + 1, level_of.update(order[done] as int, level), after),
{
    let n = order[done];
    let lo = level_of.update(n as int, level);
    assert(n < size);
    assert forall|i: int| 0 <= i < done + 1 implies placed(edges, lo, after, #[trigger] order[i]) by {
        let m = order[i];
        assert(m < size);
        if i < done {
            assert(placed(edges, level_of, levels, m));
            assert(m != n);
            let l = level_of[m as int] as int;
            let t = choose|t: int| 0 <= t < levels[l]@.len() && levels[l]@[t] == m;
            assert(after[l]@[t] == m);
        } else {
            let t = after[level as int]@.len() - 1;
            assert(after[level as int]@[t] == n);
        }
    }
    assert forall|l: int| 0 <= l < after.len() implies level_holds(order.take(done + 1), lo, l, (#[trigger] after[l])@) by {
        if l < levels.len() {
            assert(level_holds(order.take(done), level_of, l, levels[l]@));
        }
        assert forall|j: int| 0 <= j < after[l]@.len() implies order.take(done + 1).contains(#[trigger] after[l]@[j])
            && lo[after[l]@[j] as int] == l by {
            let m = after[l]@[j];
            if l == level && j == after[l]@.len() - 1 {
                assert(order.take(done + 1)[done] == n);
            } else {
                assert(m == levels[l]@[j]);
                let u = choose|u: int| 0 <= u < order.take(done).len() && order.take(done)[u] == m;
                assert(order[u] == m);
                assert(order.take(done + 1)[u] == m);
                assert(m != n);
            }
        }
        if l == level && l < levels.len() {
            assert(!levels[l]@.contains(n)) by {
                if levels[l]@.contains(n) {
                    let t = choose|t: int| 0 <= t < levels[l]@.len() && levels[l]@[t] == n;
                    assert(order.take(done).contains(levels[l]@[t]));
                    let u = choose|u: int| 0 <= u < order.take(done).len() && order.take(done)[u] == n;
                    assert(order[u] == order[done]);
                }
            }
        }
        assert(after[l]@.no_duplicates());
    }
}

impl Dag {
    /// The level of the node at `order[i]`, where the nodes before it have theirs.
    fn level_of_next(&self, order: &Vec<usize>, i: usize, level_of: &Vec<usize>, levels: &Vec<Vec<usize>>) -> (level: usize)
        requires
            self.wf(),
            i < order@.len(),
            topological(self.graph.edges(), self.graph.size(), order@),
            levels_so_far(self.graph.edges(), self.graph.size(), order@, i as int, level_of@, levels@),
        ensures
            at_level(self.graph.edges(), order@[i as int] as nat, level as nat),
            level <= levels@.len(),
    {
        let ghost edges = self.graph.edges();
        let node: usize = order[i];
        let ghost before = order@.take(i as int);
        proof {
            assert(node < self.graph.size());
            assert(sources_within(edges, order@[i as int] as nat, before));
            assert forall|t: int| 0 <= t < before.len() implies placed(edges, level_of@, levels@, #[trigger] before[t]) by {
                assert(before[t] == order@[t]);
            }
        }
        let sources = self.graph.sources(node);
        let mut top: usize = 0;
        let mut j: usize = 0;
        let ghost mut best: usize = 0;
        while j < sources.len()
            invariant
                edges == self.graph.edges(),
                i < order@.len(),
                node == order@[i as int],
                before == order@.take(i as int),
                j <= sources.len(),
                forall|s: usize| sources@.contains(s) <==> edges.contains((s as nat, node as nat)),
                sources_within(edges, node as nat, before),
                forall|t: int| 0 <= t < before.len() ==> placed(edges, level_of@, levels@, #[trigger] before[t]),
                j > 0 ==> edges.contains((best as nat, node as nat)) && at_level(edges, best as nat, top as nat) && top < levels@.len(),
                j == 0 ==> top == 0,
                forall|a: int|
                    0 <= a < j ==> level_of@[(#[trigger] sources@[a]) as int] <= top && placed(
                        edges,
                        level_of@,
                        levels@,
                        sources@[a],
                    ),
            decreases sources.len() - j,
        {
            let s: usize = sources[j];
            proof {
                assert(sources@.contains(s));
                assert(edges.contains((s as nat, node as nat)));
                let t = choose|t: int| 0 <= t < before.len() && (#[trigger] before[t]) as nat == s as nat;
                assert(placed(edges, level_of@, levels@, before[t]));
            }
            let l: usize = level_of[s];
            if j == 0 || l > top {
                top = l;
                proof {
                    best = s;
                }
            }
            j = j + 1;
        }
        if sources.len() == 0 {
            proof {
                assert forall|e: (nat, nat)| #[trigger] edges.contains(e) implies e.1 != node as nat by {
                    if e.1 == node as nat {
                        let t = choose|t: int| 0 <= t < before.len() && (#[trigger] before[t]) as nat == e.0;
                        assert(edges.contains((before[t] as nat, node as nat)));
                        assert(sources@.contains(before[t]));
                    }
                }
                lemma_root_level(edges, node as nat);
            }
            0
        } else {
            proof {
                assert forall|e: (nat, nat)|
                    #![trigger edges.contains(e)]
                    edges.contains(e) && e.1 == node as nat implies exists|l: nat| l <= top && #[trigger] at_level(edges, e.0, l) by {
                    let t = choose|t: int| 0 <= t < before.len() && (#[trigger] before[t]) as nat == e.0;
                    let s = before[t];
                    assert(edges.contains((s as nat, node as nat)));
                    assert(sources@.contains(s));
                    let a = choose|a: int| 0 <= a < sources@.len() && sources@[a] == s;
                    assert(level_of@[sources@[a] as int] <= top);
                    assert(at_level(edges, e.0, level_of@[s as int] as nat));
                }
                lemma_next_level(edges, node as nat, best as nat, top as nat);
            }
            top + 1
        }
    }

    /// The positions of the nodes by level.
    fn level_positions(&self) -> (r: Vec<Vec<usize>>)
        requires
            self.wf(),
        ensures
            forall|l: int| 0 <= l < r@.len() ==> (#[trigger] r@[l])@.len() > 0 && r@[l]@.no_duplicates(),
            forall|l: int, n: usize|
                0 <= l < r@.len() ==> (#[trigger] r@[l]@.contains(n) <==> n < self.nodes@.len() && at_level(
                    self.graph.edges(),
                    n as nat,
                    l as nat,
                )),
            forall|n: usize, l: nat| n < self.nodes@.len() && #[trigger] at_level(self.graph.edges(), n as nat, l) ==> l < r@.len(),
    {
        let ghost edges = self.graph.edges();
        let ghost size = self.graph.size();
        let order = self.graph.topo_order();
        let mut level_of: Vec<usize> = Vec::new();
        let mut k: usize = 0;
        while k < self.nodes.len()
            invariant
                k <= self.nodes.len(),
                level_of.len() == k,
            decreases self.nodes.len() - k,
        {
            level_of.push(0);
            k = k + 1;
        }
        let mut levels: Vec<Vec<usize>> = Vec::new();
        let mut i: usize = 0;
        while i < order.len()
            invariant
                self.wf(),
                edges == self.graph.edges(),
                size == self.graph.size(),
                i <= order.len(),
                topological(edges, size, order@),
                levels_so_far(edges, size, order@, i as int, level_of@, levels@),
            decreases order.len() - i,
        {
            let node: usize = order[i];
            let level: usize = self.level_of_next(&order, i, &level_of, &levels);
            let ghost before = levels@;
            let ghost before_level_of = level_of@;
            assert(order@[i as int] < size);
            level_of.set(node, level);
            if level < levels.len() {
                levels[level].push(node);
            } else {
                let mut fresh: Vec<usize> = Vec::new();
                fresh.push(node);
                levels.push(fresh);
                assert(levels@[level as int]@ =~= seq![node]);
            }
            proof {
                lemma_place(edges, size, order@, i as int, before_level_of, before, level, levels@);
            }
            i = i + 1;
        }
        proof {
            assert(order@.take(i as int) =~= order@);
            assert forall|n: usize, l: nat| n < size && #[trigger] at_level(edges, n as nat, l) implies l < levels@.len()
                && levels@[l as int]@.contains(n) by {
                if order@.contains(n) {
                    let u = choose|u: int| 0 <= u < order@.len() && order@[u] == n;
                    assert(placed(edges, level_of@, levels@, order@[u]));
                    lemma_level_unique(edges, n as nat, l, level_of@[n as int] as nat);
                } else {
                    reveal(at_level);
                    lemma_unlisted_has_walks(edges, size, order@, n, (l + 1) as nat);
                }
            }
            assert forall|l: int, n: usize| 0 <= l < levels@.len() implies (#[trigger] levels@[l]@.contains(n) <==> n
                < self.nodes@.len() && at_level(edges, n as nat, l as nat)) by {
                if levels@[l]@.contains(n) {
                    assert(level_holds(order@, level_of@, l, levels@[l]@));
                    let t = choose|t: int| 0 <= t < levels@[l]@.len() && levels@[l]@[t] == n;
                    assert(order@.contains(levels@[l]@[t]));
                    let u = choose|u: int| 0 <= u < order@.len() && order@[u] == n;
                    assert(placed(edges, level_of@, levels@, order@[u]));
                }
            }
            assert forall|l: int| 0 <= l < levels@.len() implies (#[trigger] levels@[l])@.len() > 0 && levels@[l]@.no_duplicates() by {
                assert(level_holds(order@, level_of@, l, levels@[l]@));
            }
        }
        levels
    }

    /// The ids of the nodes at `positions`.
    fn names_of(&self, positions: &Vec<usize>) -> (r: Vec<String>)
        requires
            forall|j: int| 0 <= j < positions@.len() ==> (#[trigger] positions@[j]) < self.nodes@.len(),
        ensures
            r@.len() == positions@.len(),
            forall|j: int| 0 <= j < r@.len() ==> (#[trigger] r@[j])@ == self.nodes@[positions@[j] as int].id@,
    {
        let mut names: Vec<String> = Vec::new();
        let mut j: usize = 0;
        while j < positions.len()
            invariant
                j <= positions.len(),
                names.len() == j,
                forall|b: int| 0 <= b < positions@.len() ==> (#[trigger] positions@[b]) < self.nodes@.len(),
                forall|b: int| 0 <= b < j ==> (#[trigger] names@[b])@ == self.nodes@[positions@[b] as int].id@,
            decreases positions.len() - j,
        {
            names.push(self.nodes[positions[j]].id.clone());
            j = j + 1;
        }
        names
    }

    /// The nodes by level: a node without dependencies has level 0, any other one level
    /// more than the highest of its dependencies. Nodes on or behind a cycle have none.
    pub fn compute_levels(&self) -> (r: Vec<(usize, Vec<String>)>)
        requires
            self.wf(),
        ensures
            by_level(self.graph.edges(), self.nodes@, r@),
    {
        let levels = self.level_positions();
        let ghost listing = Seq::new(levels@.len(), |l: int| levels@[l]@);
        let ghost edges = self.graph.edges();
        let mut r: Vec<(usize, Vec<String>)> = Vec::new();
        let mut l: usize = 0;
        while l < levels.len()
            invariant
                l <= levels.len(),
                edges == self.graph.edges(),
                listing == Seq::new(levels@.len(), |l: int| levels@[l]@),
                forall|l: int| 0 <= l < levels@.len() ==> (#[trigger] levels@[l])@.len() > 0 && levels@[l]@.no_duplicates(),
                forall|l: int, n: usize|
                    0 <= l < levels@.len() ==> (#[trigger] levels@[l]@.contains(n) <==> n < self.nodes@.len() && at_level(
                        edges,
                        n as nat,
                        l as nat,
                    )),
                r@.len() == l,
                forall|a: int| 0 <= a < l ==> (#[trigger] r@[a]).0 == a && names_level(self.nodes@, listing[a], r@[a].1@),
            decreases levels.len() - l,
        {
            proof {
                assert forall|j: int| 0 <= j < levels@[l as int]@.len() implies (#[trigger] levels@[l as int]@[j]) < self.nodes@.len() by {
                    assert(levels@[l as int]@.contains(levels@[l as int]@[j]));
                }
            }
            if levels[l].len() > 0 {
                let names = self.names_of(&levels[l]);
                r.push((l, names));
            }
            l = l + 1;
        }
        proof {
            assert forall|a: int, n: usize| 0 <= a < r@.len() implies (#[trigger] listing[a].contains(n) <==> n < self.nodes@.len()
                && at_level(edges, n as nat, a as nat)) by {
                assert(listing[a] == levels@[a]@);
                assert(levels@[a]@.contains(n) <==> n < self.nodes@.len() && at_level(edges, n as nat, a as nat));
            }
            assert(lists_levels(edges, self.nodes@, listing, r@));
        }
        r
    }
}

/// Whether all dependencies of `node` have been executed.
pub open spec fn dependencies_done(node: Node, executed: Set<Seq<char>>) -> bool {
    forall|j: int| 0 <= j < node.dependencies@.len() ==> executed.contains((#[trigger] node.dependencies@[j])@)
}

/// Whether `node` can run: it neither ran nor runs, and its dependencies have been executed.
pub open spec fn is_ready(node: Node, executed: Set<Seq<char>>, executing: Set<Seq<char>>) -> bool {
    &&& !executed.contains(node.id@)
    &&& !executing.contains(node.id@)
    &&& dependencies_done(node, executed)
}

/// `r` are the positions of the nodes that can run, in order.
pub open spec fn ready_positions(
    nodes: Seq<Node>,
    executed: Set<Seq<char>>,
    executing: Set<Seq<char>>,
    r: Seq<usize>,
) -> bool {
    &&& forall|a: int, b: int| 0 <= a < b < r.len() ==> (#[trigger] r[a]) < (#[trigger] r[b])
    &&& forall|a: int| 0 <= a < r.len() ==> (#[trigger] r[a]) < nodes.len()
    &&& forall|n: usize| n < nodes.len() ==> (#[trigger] r.contains(n) <==> is_ready(nodes[n as int], executed, executing))
}

/// Whether all of `deps` have been executed.
pub fn all_done(deps: &Vec<String>, executed: &StringSet) -> (r: bool)
    ensures
        r == (forall|j: int| 0 <= j < deps@.len() ==> executed@.contains((#[trigger] deps@[j])@)),
{
    let mut j: usize = 0;
    while j < deps.len()
        invariant
            j <= deps.len(),
            forall|b: int| 0 <= b < j ==> executed@.contains((#[trigger] deps@[b])@),
        decreases deps.len() - j,
    {
        if !executed.contains(deps[j].as_str()) {
            return false;
        }
        j = j + 1;
    }
    true
}

/// The nodes that can run.
pub fn find_ready_nodes(dag: &Dag, executed_nodes: &StringSet, executing_nodes: &StringSet) -> (r: Vec<usize>)
    ensures
        ready_positions(dag.nodes@, executed_nodes@, executing_nodes@, r@),
{
    let mut ready: Vec<usize> = Vec::new();
    let mut i: usize = 0;
    while i < dag.nodes.len()
        invariant
            i <= dag.nodes@.len(),
            forall|a: int, b: int| 0 <= a < b < ready@.len() ==> (#[trigger] ready@[a]) < (#[trigger] ready@[b]),
            forall|a: int| 0 <= a < ready@.len() ==> (#[trigger] ready@[a]) < i,
            forall|n: usize|
                n < i ==> (#[trigger] ready@.contains(n) <==> is_ready(dag.nodes@[n as int], executed_nodes@, executing_nodes@)),
        decreases dag.nodes.len() - i,
    {
        let ghost before = ready@;
        if !executed_nodes.contains(dag.nodes[i].id.as_str()) && !executing_nodes.contains(dag.nodes[i].id.as_str())
            && all_done(&dag.nodes[i].dependencies, executed_nodes) {
            ready.push(i);
        }
        proof {
            assert forall|n: usize| n < i + 1 implies (#[trigger] ready@.contains(n) <==> is_ready(
                dag.nodes@[n as int],
                executed_nodes@,
                executing_nodes@,
            )) by {
                if n < i {
                    if before.contains(n) {
                        let a = choose|a: int| 0 <= a < before.len() && before[a] == n;
                        assert(ready@[a] == n);
                    }
                    if ready@.contains(n) {
                        let a = choose|a: int| 0 <= a < ready@.len() && ready@[a] == n;
                        assert(before[a] == n);
                        assert(before.contains(n));
                    }
                } else {
                    if ready@.len() > before.len() {
                        assert(ready@[before.len() as int] == n);
                    } else if ready@.contains(n) {
                        let a = choose|a: int| 0 <= a < ready@.len() && ready@[a] == n;
                        assert(before[a] < i);
                    }
                }
            }
        }
        i = i + 1;
    }
    ready
}

/// A node can run exactly where it neither ran nor runs and each of its dependencies ran; the
/// nodes that can are given in order.
pub proof fn ready_nodes_wait_for_nothing(dag: &Dag, executed: &StringSet, executing: &StringSet, r: Vec<usize>, n: usize)
    requires
        call_ensures(find_ready_nodes, (dag, executed, executing), r),
        n < dag.nodes@.len(),
    ensures
        r@.contains(n) <==> !executed@.contains(dag.nodes@[n as int].id@) && !executing@.contains(dag.nodes@[n as int].id@)
            && forall|j: int|
            0 <= j < dag.nodes@[n as int].dependencies@.len() ==> executed@.contains(
                (#[trigger] dag.nodes@[n as int].dependencies@[j])@,
            ),
        forall|a: int, b: int| 0 <= a < b < r@.len() ==> (#[trigger] r@[a]) < (#[trigger] r@[b]),
{
}

/// Whether level `l` names `id`.
pub open spec fn names(r: Seq<(usize, Vec<String>)>, l: int, id: Seq<char>) -> bool {
    0 <= l < r.len() && exists|k: int| 0 <= k < r[l].1@.len() && (#[trigger] r[l].1@[k])@ == id
}

proof fn lemma_named(dag: Dag, r: Seq<(usize, Vec<String>)>, listing: Seq<Seq<usize>>, l: int, n: int)
    requires
        dag.wf(),
        super::dag::ids_differ(dag.nodes@),
        lists_levels(dag.graph.edges(), dag.nodes@, listing, r),
        0 <= n < dag.nodes@.len(),
    ensures
        names(r, l, dag.nodes@[n].id@) <==> 0 <= l < r.len() && at_level(dag.graph.edges(), n as nat, l as nat),
{
    if 0 <= l < r.len() {
        assert(names_level(dag.nodes@, listing[l], r[l].1@));
        assert(listing[l].contains(n as usize) <==> at_level(dag.graph.edges(), n as nat, l as nat));
        if names(r, l, dag.nodes@[n].id@) {
            let k = choose|k: int| 0 <= k < r[l].1@.len() && (#[trigger] r[l].1@[k])@ == dag.nodes@[n].id@;
            let p = listing[l][k] as int;
            if p < n {
                assert(dag.nodes@[p].id@ != dag.nodes@[n].id@);
            } else if n < p {
                assert(dag.nodes@[n].id@ != dag.nodes@[p].id@);
            }
            assert(listing[l].contains(listing[l][k]));
        }
        if listing[l].contains(n as usize) {
            let k = choose|k: int| 0 <= k < listing[l].len() && listing[l][k] == n as usize;
            assert(r[l].1@[k]@ == dag.nodes@[n].id@);
        }
    }
}

/// A node stands on a later level than each node that it depends on, and a node without
/// dependencies on the first.
pub proof fn levels_follow_dependencies(dag: &Dag, r: Vec<(usize, Vec<String>)>, a: int, b: int, la: int, lb: int)
    requires
        call_ensures(Dag::compute_levels, (dag,), r),
        dag.wf(),
        super::dag::ids_differ(dag.nodes@),
        0 <= a < dag.nodes@.len(),
        0 <= b < dag.nodes@.len(),
    ensures
        super::dag::depends(dag.nodes@, b, a) && names(r@, la, dag.nodes@[a].id@) && names(r@, lb, dag.nodes@[b].id@) ==> la < lb,
        dag.nodes@[a].dependencies@.len() == 0 ==> names(r@, 0, dag.nodes@[a].id@),
        names(r@, la, dag.nodes@[a].id@) && names(r@, lb, dag.nodes@[a].id@) ==> la == lb,
        0 <= la < r@.len() ==> r@[la].0 == la && r@[la].1@.len() > 0,
{
    let edges = dag.graph.edges();
    let listing = choose|listing: Seq<Seq<usize>>| #[trigger] lists_levels(edges, dag.nodes@, listing, r@);
    lemma_named(*dag, r@, listing, la, a);
    lemma_named(*dag, r@, listing, lb, b);
    lemma_named(*dag, r@, listing, lb, a);
    lemma_named(*dag, r@, listing, 0, a);
    if 0 <= la < r@.len() {
        assert(names_level(dag.nodes@, listing[la], r@[la].1@));
    }
    if super::dag::depends(dag.nodes@, b, a) && names(r@, la, dag.nodes@[a].id@) && names(r@, lb, dag.nodes@[b].id@) {
        super::dag::lemma_edges_are_dependencies(dag.indices@, dag.nodes@, a as nat, b as nat);
        reveal(at_level);
        lemma_extend(edges, a as nat, b as nat, la as nat);
        if lb <= la {
            crate::graph::lemma_reached_between(edges, b as nat, (lb + 1) as nat, (la + 1) as nat);
        }
    }
    if names(r@, la, dag.nodes@[a].id@) && names(r@, lb, dag.nodes@[a].id@) {
        lemma_level_unique(edges, a as nat, la as nat, lb as nat);
    }
    if dag.nodes@[a].dependencies@.len() == 0 {
        assert forall|s: nat| !(#[trigger] edges.contains((s, a as nat))) by {
            if edges.contains((s, a as nat)) {
                let (i, j) = super::dag::lemma_edge_dependency(dag.indices@, dag.nodes@, (s, a as nat));
                assert(super::dag::has_node(dag.nodes@, dag.nodes@[i].id@));
                assert(dag.indices@.contains_key(dag.nodes@[i].id@));
                assert(dag.nodes@[a].id@ == dag.nodes@[i].id@);
                if i < a {
                    assert(dag.nodes@[i].id@ != dag.nodes@[a].id@);
                } else if a < i {
                    assert(dag.nodes@[a].id@ != dag.nodes@[i].id@);
                }
            }
        }
        lemma_root_level(edges, a as nat);
    }
}

} // verus!
