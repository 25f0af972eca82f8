//! The record of a system of agents as a DOT graph.

use crate::dag_flow::dot::{clock_text, repeated, time_of_day};
use crate::dag_flow::tree::{ExecutionTree, NodeSnapshot};
use crate::string_map::StringSet;
use crate::text::{
    begins_with, cat2, cat5, lemma_occurs_between, lemma_occurs_in, lemma_pieces_nonempty, occurs, owned, pieces, split,
    starts_with, strip_prefix, views,
};
use vstd::prelude::*;

verus! {

/// Whether a node stands for a message that was published.
pub open spec fn is_publication(s: NodeSnapshot) -> bool {
    begins_with(s.node_id@, "publish_"@)
}

/// A text, or `unknown`.
pub open spec fn or_unknown(s: Option<String>) -> Seq<char> {
    match s {
        Some(t) => t@,
        None => "unknown"@,
    }
}

/// The label of an agent: a table with its name, its channel, what became of it and when.
pub open spec fn agent_label(s: NodeSnapshot) -> Seq<char> {
    "<<TABLE BORDER=\"0\" CELLBORDER=\"1\" CELLSPACING=\"0\">\n<TR><TD BGCOLOR=\"#E8E8E8\"><B>Agent: "@ + pieces(
        s.node_id@,
        '_',
    )[0] + "</B></TD></TR>\n<TR><TD>Channel: "@ + or_unknown(s.channel) + "</TD></TR>\n<TR><TD BGCOLOR=\""@ + (
    if s.outcome.success {
        "#E6FFE6\">✓ Success"@
    } else {
        "#FFE6E6\">✗ Failed"@
    }) + "</TD></TR>\n<TR><TD>Time: "@ + clock_text(s.timestamp) + "</TD></TR>\n</TABLE>>"@
}

/// The label of a publication: a table with its channel, its message, what became of it and
/// when.
pub open spec fn publication_label(s: NodeSnapshot) -> Seq<char> {
    "<<TABLE BORDER=\"0\" CELLBORDER=\"1\" CELLSPACING=\"0\">\n<TR><TD BGCOLOR=\"#FFF8E8\"><B>Publish: "@ + or_unknown(
        s.channel,
    ) + "</B></TD></TR>\n<TR><TD>Message ID: "@ + or_unknown(s.message_id) + "</TD></TR>\n<TR><TD BGCOLOR=\""@ + (
    if s.outcome.success {
        "#E6FFE6\">✓ Sent"@
    } else {
        "#FFE6E6\">✗ Failed"@
    }) + "</TD></TR>\n<TR><TD>Time: "@ + clock_text(s.timestamp) + "</TD></TR>\n</TABLE>>"@
}

/// The line of a node.
pub open spec fn node_line(s: NodeSnapshot) -> Seq<char> {
    "    \""@ + s.node_id@ + "\" [label="@ + (if is_publication(s) {
        publication_label(s)
    } else {
        agent_label(s)
    }) + (if s.outcome.success {
        ", color=green, fontcolor=black];\n"@
    } else {
        ", color=red, fontcolor=black];\n"@
    })
}

/// The lines of the publications, or of the agents, among the first `n` nodes; a node that
/// is recorded again has one line.
pub open spec fn node_lines(nodes: Seq<NodeSnapshot>, publications: bool, n: int) -> Seq<char>
    decreases n,
{
    if n <= 0 {
        Seq::empty()
    } else {
        let before = node_lines(nodes, publications, n - 1);
        if repeated(nodes, n - 1) || is_publication(nodes[n - 1]) != publications {
            before
        } else {
            before + node_line(nodes[n - 1])
        }
    }
}

/// What an edge is said to be.
pub open spec fn edge_words(label: Seq<char>) -> Seq<char> {
    if begins_with(label, "via_"@) {
        "received from "@ + label.skip("via_"@.len() as int)
    } else if begins_with(label, "published_to_"@) {
        "published to "@ + label.skip("published_to_"@.len() as int)
    } else {
        label
    }
}

/// The lines of the first `n` edges.
pub open spec fn edge_lines(nodes: Seq<NodeSnapshot>, edges: Seq<(nat, nat)>, labels: Seq<(Seq<char>, Seq<char>)>, n: int) -> Seq<
    char,
>
    decreases n,
{
    if n <= 0 {
        Seq::empty()
    } else {
        edge_lines(nodes, edges, labels, n - 1) + ("  \""@ + nodes[edges[n - 1].0 as int].node_id@ + "\" -> \""@
            + nodes[edges[n - 1].1 as int].node_id@ + "\" [label=\""@ + edge_words(labels[n - 1].1) + "\"];\n"@)
    }
}

/// What comes before the agents.
pub open spec fn header() -> Seq<char> {
    "digraph PubSubFlow {\n  graph [rankdir=LR, nodesep=0.5, ranksep=1.0];\n"@
        + "  node [shape=box, style=rounded, fontname=\"Helvetica\", width=1.5];\n  edge [fontsize=10, color=gray];\n\n"@
        + "  // Agent nodes\n  subgraph cluster_agents {\n    label=\"Agents\";\n    style=dashed;\n    color=blue;\n"@
        + "    node [style=filled, fillcolor=lightblue];\n\n"@
}

/// What comes between the agents and the publications.
pub open spec fn divider() -> Seq<char> {
    "  }\n\n  // Publish nodes\n  subgraph cluster_publish {\n    label=\"Published Messages\";\n"@
        + "    style=dashed;\n    color=orange;\n    node [style=filled, fillcolor=lightyellow, shape=ellipse];\n\n"@
}

/// The record of a system of agents as a DOT graph.
pub open spec fn dot_text(nodes: Seq<NodeSnapshot>, edges: Seq<(nat, nat)>, labels: Seq<(Seq<char>, Seq<char>)>) -> Seq<char> {
    header() + node_lines(nodes, false, nodes.len() as int) + divider() + node_lines(nodes, true, nodes.len() as int)
        + "  }\n\n\n  // Edges\n"@ + edge_lines(nodes, edges, labels, edges.len() as int) + "}\n"@
}

fn text_or_unknown(s: &Option<String>) -> (r: &str)
    ensures
        r@ == or_unknown(*s),
{
    match s {
        Some(t) => t.as_str(),
        None => "unknown",
    }
}

fn label_of(s: &NodeSnapshot) -> (r: String)
    ensures
        r@ == (if is_publication(*s) {
            publication_label(*s)
        } else {
            agent_label(*s)
        }),
{
    let mut label: String;
    if starts_with(s.node_id.as_str(), "publish_") {
        label = cat5(
            "<<TABLE BORDER=\"0\" CELLBORDER=\"1\" CELLSPACING=\"0\">\n<TR><TD BGCOLOR=\"#FFF8E8\"><B>Publish: ",
            text_or_unknown(&s.channel),
            "</B></TD></TR>\n<TR><TD>Message ID: ",
            text_or_unknown(&s.message_id),
            "</TD></TR>\n<TR><TD BGCOLOR=\"",
        );
        label.append(
            if s.outcome.success {
                "#E6FFE6\">✓ Sent"
            } else {
                "#FFE6E6\">✗ Failed"
            },
        );
    } else {
        let parts = split(s.node_id.as_str(), '_');
        proof {
            lemma_pieces_nonempty(s.node_id@, '_');
            assert(views(parts@)[0] == parts@[0]@);
        }
        label = cat5(
            "<<TABLE BORDER=\"0\" CELLBORDER=\"1\" CELLSPACING=\"0\">\n<TR><TD BGCOLOR=\"#E8E8E8\"><B>Agent: ",
            parts[0].as_str(),
            "</B></TD></TR>\n<TR><TD>Channel: ",
            text_or_unknown(&s.channel),
            "</TD></TR>\n<TR><TD BGCOLOR=\"",
        );
        label.append(
            if s.outcome.success {
                "#E6FFE6\">✓ Success"
            } else {
                "#FFE6E6\">✗ Failed"
            },
        );
    }
    label.append("</TD></TR>\n<TR><TD>Time: ");
    let time = time_of_day(&s.timestamp);
    label.append(time.as_str());
    label.append("</TD></TR>\n</TABLE>>");
    label
}

fn lines_of(nodes: &Vec<NodeSnapshot>, publications: bool) -> (r: String)
    ensures
        r@ == node_lines(nodes@, publications, nodes@.len() as int),
{
    let mut text: String = String::new();
    let mut seen = StringSet::new();
    let mut i: usize = 0;
    proof {
        assert(text@ =~= node_lines(nodes@, publications, 0));
    }
    while i < nodes.len()
        invariant
            i <= nodes@.len(),
            forall|k: Seq<char>| #[trigger]
                seen@.contains(k) <==> exists|j: int| 0 <= j < i && (#[trigger] nodes@[j]).node_id@ == k,
            text@ == node_lines(nodes@, publications, i as int),
        decreases nodes.len() - i,
    {
        let s = &nodes[i];
        let ghost was = seen@;
        let fresh: bool = seen.insert(s.node_id.clone());
        proof {
            assert(fresh == !repeated(nodes@, i as int)) by {
                assert(was.contains(s.node_id@) <==> exists|j: int|
                    0 <= j < i && (#[trigger] nodes@[j]).node_id@ == s.node_id@);
            }
        }
        if fresh && starts_with(s.node_id.as_str(), "publish_") == publications {
            let label = label_of(s);
            let line = cat5(
                "    \"",
                s.node_id.as_str(),
                "\" [label=",
                label.as_str(),
                if s.outcome.success {
                    ", color=green, fontcolor=black];\n"
                } else {
                    ", color=red, fontcolor=black];\n"
                },
            );
            text.append(line.as_str());
        }
        proof {
            assert forall|k: Seq<char>| #[trigger] seen@.contains(k) <==> exists|j: int|
                0 <= j < i + 1 && (#[trigger] nodes@[j]).node_id@ == k by {
                if exists|j: int| 0 <= j < i + 1 && (#[trigger] nodes@[j]).node_id@ == k {
                    let j = choose|j: int| 0 <= j < i + 1 && (#[trigger] nodes@[j]).node_id@ == k;
                    if j < i {
                        assert(nodes@[j].node_id@ == k);
                    }
                }
                if k == nodes@[i as int].node_id@ {
                    assert(nodes@[i as int].node_id@ == k);
                }
            }
        }
        i = i + 1;
    }
    text
}

fn words_of(label: &str) -> (r: String)
    ensures
        r@ == edge_words(label@),
{
    match strip_prefix(label, "via_") {
        Some(channel) => cat2("received from ", channel.as_str()),
        None => match strip_prefix(label, "published_to_") {
            Some(channel) => cat2("published to ", channel.as_str()),
            None => owned(label),
        },
    }
}

/// The record of a system of agents as a DOT graph: the agents, the messages that they
/// published, and who had what from whom.
pub fn serialize_tree_to_dot(tree: &ExecutionTree) -> (r: String)
    requires
        tree.wf(),
    ensures
        r@ == dot_text(tree.nodes@, tree@.edges, tree@.labels),
{
    let ghost nodes = tree.nodes@;
    let mut dot = cat2(
        "digraph PubSubFlow {\n  graph [rankdir=LR, nodesep=0.5, ranksep=1.0];\n",
        "  node [shape=box, style=rounded, fontname=\"Helvetica\", width=1.5];\n  edge [fontsize=10, color=gray];\n\n",
    );
    dot.append(
        "  // Agent nodes\n  subgraph cluster_agents {\n    label=\"Agents\";\n    style=dashed;\n    color=blue;\n",
    );
    dot.append("    node [style=filled, fillcolor=lightblue];\n\n");
    let agents = lines_of(&tree.nodes, false);
    dot.append(agents.as_str());
    dot.append(
        cat2(
            "  }\n\n  // Publish nodes\n  subgraph cluster_publish {\n    label=\"Published Messages\";\n",
            "    style=dashed;\n    color=orange;\n    node [style=filled, fillcolor=lightyellow, shape=ellipse];\n\n",
        ).as_str(),
    );
    let publications = lines_of(&tree.nodes, true);
    dot.append(publications.as_str());
    dot.append("  }\n\n\n  // Edges\n");
    let list = tree.graph.edge_list();
    let ghost edges = tree@.edges;
    let ghost labels = tree@.labels;
    let ghost base = dot@;
    let mut k: usize = 0;
    proof {
        assert(base + edge_lines(nodes, edges, labels, 0) =~= base);
    }
    while k < list.len()
        invariant
            k <= list@.len(),
            tree.wf(),
            nodes == tree.nodes@,
            edges == tree@.edges,
            labels == tree@.labels,
            list@.len() == edges.len(),
            forall|i: int| 0 <= i < list@.len() ==> (list@[i].0 as nat, (#[trigger] list@[i]).1 as nat) == edges[i],
            dot@ == base + edge_lines(nodes, edges, labels, k as int),
        decreases list.len() - k,
    {
        proof {
            assert(tree.graph.edges()[k as int].0 < tree.graph.size());
        }
        let source = tree.nodes[list[k].0].node_id.as_str();
        let target = tree.nodes[list[k].1].node_id.as_str();
        let mut line = cat5("  \"", source, "\" -> \"", target, "\" [label=\"");
        let words = words_of(tree.labels[k].label.as_str());
        line.append(words.as_str());
        line.append("\"];\n");
        let ghost before = edge_lines(nodes, edges, labels, k as int);
        dot.append(line.as_str());
        proof {
            assert(labels[k as int].1 == tree.labels@[k as int].label@);
            assert(dot@ =~= base + (before + line@));
        }
        k = k + 1;
    }
    dot.append("}\n");
    dot
}

/// Whether a label tells which agent had a message over which channel, or which message was
/// published over which channel; what became of it and when.
pub open spec fn label_tells(label: Seq<char>, s: NodeSnapshot) -> bool {
    let channel = match s.channel {
        Some(c) => c@,
        None => "unknown"@,
    };
    let message = match s.message_id {
        Some(m) => m@,
        None => "unknown"@,
    };
    &&& begins_with(s.node_id@, "publish_"@) ==> occurs(
        label,
        channel + "</B></TD></TR>\n<TR><TD>Message ID: "@ + message + "</TD></TR>\n<TR><TD BGCOLOR=\""@,
    )
    &&& begins_with(s.node_id@, "publish_"@) && s.outcome.success ==> occurs(label, "#E6FFE6\">✓ Sent"@)
    &&& begins_with(s.node_id@, "publish_"@) && !s.outcome.success ==> occurs(label, "#FFE6E6\">✗ Failed"@)
    &&& !begins_with(s.node_id@, "publish_"@) ==> occurs(
        label,
        pieces(s.node_id@, '_')[0] + "</B></TD></TR>\n<TR><TD>Channel: "@ + channel + "</TD></TR>\n<TR><TD BGCOLOR=\""@,
    )
    &&& !begins_with(s.node_id@, "publish_"@) && s.outcome.success ==> occurs(label, "#E6FFE6\">✓ Success"@)
    &&& !begins_with(s.node_id@, "publish_"@) && !s.outcome.success ==> occurs(label, "#FFE6E6\">✗ Failed"@)
    &&& occurs(label, "</TD></TR>\n<TR><TD>Time: "@ + clock_text(s.timestamp) + "</TD></TR>\n</TABLE>>"@)
}

/// Whether a part of a drawing has a node with a label, in green where it succeeded and in red
/// where not.
pub open spec fn draws_node(part: Seq<char>, s: NodeSnapshot, label: Seq<char>) -> bool {
    &&& s.outcome.success ==> occurs(part, "    \""@ + s.node_id@ + "\" [label="@ + label + ", color=green, fontcolor=black];\n"@)
    &&& !s.outcome.success ==> occurs(part, "    \""@ + s.node_id@ + "\" [label="@ + label + ", color=red, fontcolor=black];\n"@)
}

proof fn lemma_node_line_is_there(nodes: Seq<NodeSnapshot>, publications: bool, n: int, i: int)
    requires
        0 <= i < n <= nodes.len(),
        !repeated(nodes, i),
        is_publication(nodes[i]) == publications,
    ensures
        occurs(node_lines(nodes, publications, n), node_line(nodes[i])),
    decreases n,
{
    let e = Seq::<char>::empty();
    let before = node_lines(nodes, publications, n - 1);
    let line = node_line(nodes[n - 1]);
    if i == n - 1 {
        lemma_occurs_between(before, line, e);
        assert(before + line + e =~= before + line);
    } else {
        lemma_node_line_is_there(nodes, publications, n - 1, i);
        lemma_occurs_in(e, before, line, node_line(nodes[i]));
        assert(e + before + line =~= before + line);
    }
}

proof fn lemma_label(s: NodeSnapshot, label: Seq<char>)
    requires
        label == (if is_publication(s) {
            publication_label(s)
        } else {
            agent_label(s)
        }),
    ensures
        label_tells(label, s),
{
    let e = Seq::<char>::empty();
    let time = "</TD></TR>\n<TR><TD>Time: "@ + clock_text(s.timestamp) + "</TD></TR>\n</TABLE>>"@;
    let (a, x, b, y, c, w) = if is_publication(s) {
        (
            "<<TABLE BORDER=\"0\" CELLBORDER=\"1\" CELLSPACING=\"0\">\n<TR><TD BGCOLOR=\"#FFF8E8\"><B>Publish: "@,
            or_unknown(s.channel),
            "</B></TD></TR>\n<TR><TD>Message ID: "@,
            or_unknown(s.message_id),
            "</TD></TR>\n<TR><TD BGCOLOR=\""@,
            if s.outcome.success {
                "#E6FFE6\">✓ Sent"@
            } else {
                "#FFE6E6\">✗ Failed"@
            },
        )
    } else {
        (
            "<<TABLE BORDER=\"0\" CELLBORDER=\"1\" CELLSPACING=\"0\">\n<TR><TD BGCOLOR=\"#E8E8E8\"><B>Agent: "@,
            pieces(s.node_id@, '_')[0],
            "</B></TD></TR>\n<TR><TD>Channel: "@,
            or_unknown(s.channel),
            "</TD></TR>\n<TR><TD BGCOLOR=\""@,
            if s.outcome.success {
                "#E6FFE6\">✓ Success"@
            } else {
                "#FFE6E6\">✗ Failed"@
            },
        )
    };
    assert(label =~= a + x + b + y + c + w + time);
    lemma_occurs_between(a, x + b + y + c, w + time);
    assert(label =~= a + (x + b + y + c) + (w + time));
    lemma_occurs_between(a + x + b + y + c, w, time);
    lemma_occurs_between(a + x + b + y + c + w, time, e);
    assert(label =~= (a + x + b + y + c + w) + time + e);
}

/// Each agent and each published message is drawn, the agents before the messages, with a label
/// that tells what it is.
pub proof fn each_record_is_drawn(tree: &ExecutionTree, r: String, i: int)
    requires
        tree.wf(),
        call_ensures(serialize_tree_to_dot, (tree,), r),
        0 <= i < tree.nodes@.len(),
        forall|j: int| 0 <= j < i ==> (#[trigger] tree.nodes@[j]).node_id@ != tree.nodes@[i].node_id@,
    ensures
        exists|agents: Seq<char>, messages: Seq<char>, label: Seq<char>|
            {
                &&& r@ == #[trigger] (agents + divider() + messages)
                &&& begins_with(tree.nodes@[i].node_id@, "publish_"@) ==> draws_node(messages, tree.nodes@[i], label)
                &&& !begins_with(tree.nodes@[i].node_id@, "publish_"@) ==> draws_node(agents, tree.nodes@[i], label)
                &&& #[trigger] label_tells(label, tree.nodes@[i])
            },
{
    let nodes = tree.nodes@;
    let s = nodes[i];
    let n = nodes.len() as int;
    let label = if is_publication(s) {
        publication_label(s)
    } else {
        agent_label(s)
    };
    lemma_label(s, label);
    assert(!repeated(nodes, i));
    lemma_node_line_is_there(nodes, is_publication(s), n, i);
    let e = Seq::<char>::empty();
    let rest = "  }\n\n\n  // Edges\n"@ + edge_lines(nodes, tree@.edges, tree@.labels, tree@.edges.len() as int) + "}\n"@;
    let agents = header() + node_lines(nodes, false, n);
    let messages = node_lines(nodes, true, n) + rest;
    assert(r@ =~= agents + divider() + messages);
    if is_publication(s) {
        lemma_occurs_in(e, node_lines(nodes, true, n), rest, node_line(s));
        assert(e + node_lines(nodes, true, n) + rest =~= messages);
        assert(draws_node(messages, s, label));
    } else {
        lemma_occurs_in(header(), node_lines(nodes, false, n), e, node_line(s));
        assert(header() + node_lines(nodes, false, n) + e =~= agents);
        assert(draws_node(agents, s, label));
    }
}

/// Whether `words` is what is said of an edge with a label: from where a message was received,
/// to where it was published, or the label itself.
pub open spec fn tells_edge(label: Seq<char>, words: Seq<char>, name: Seq<char>) -> bool {
    &&& label == "via_"@ + name ==> words == "received from "@ + name
    &&& label == "published_to_"@ + name ==> words == "published to "@ + name
    &&& !begins_with(label, "via_"@) && !begins_with(label, "published_to_"@) ==> words == label
}

proof fn lemma_edge_line_is_there(nodes: Seq<NodeSnapshot>, edges: Seq<(nat, nat)>, labels: Seq<(Seq<char>, Seq<char>)>, n: int, k: int)
    requires
        0 <= k < n <= edges.len(),
    ensures
        occurs(
            edge_lines(nodes, edges, labels, n),
            "  \""@ + nodes[edges[k].0 as int].node_id@ + "\" -> \""@ + nodes[edges[k].1 as int].node_id@ + "\" [label=\""@
                + edge_words(labels[k].1) + "\"];\n"@,
        ),
    decreases n,
{
    let e = Seq::<char>::empty();
    let before = edge_lines(nodes, edges, labels, n - 1);
    let line = "  \""@ + nodes[edges[n - 1].0 as int].node_id@ + "\" -> \""@ + nodes[edges[n - 1].1 as int].node_id@
        + "\" [label=\""@ + edge_words(labels[n - 1].1) + "\"];\n"@;
    if k == n - 1 {
        lemma_occurs_between(before, line, e);
        assert(before + line + e =~= before + line);
    } else {
        lemma_edge_line_is_there(nodes, edges, labels, n - 1, k);
        lemma_occurs_in(
            e,
            before,
            line,
            "  \""@ + nodes[edges[k].0 as int].node_id@ + "\" -> \""@ + nodes[edges[k].1 as int].node_id@ + "\" [label=\""@
                + edge_words(labels[k].1) + "\"];\n"@,
        );
        assert(e + before + line =~= before + line);
    }
}

/// Each edge is drawn from its source to its target and says how the message went.
pub proof fn each_edge_is_drawn(tree: &ExecutionTree, r: String, k: int, name: Seq<char>)
    requires
        tree.wf(),
        call_ensures(serialize_tree_to_dot, (tree,), r),
        0 <= k < tree@.edges.len(),
    ensures
        exists|words: Seq<char>| #[trigger]
            tells_edge(tree@.labels[k].1, words, name) && occurs(
                r@,
                "  \""@ + tree.nodes@[tree@.edges[k].0 as int].node_id@ + "\" -> \""@
                    + tree.nodes@[tree@.edges[k].1 as int].node_id@ + "\" [label=\""@ + words + "\"];\n"@,
            ),
{
    let nodes = tree.nodes@;
    let edges = tree@.edges;
    let n = nodes.len() as int;
    let label = tree@.labels[k].1;
    let words = edge_words(label);
    reveal_strlit("via_");
    reveal_strlit("published_to_");
    if label == "via_"@ + name {
        assert(label.take("via_"@.len() as int) =~= "via_"@);
        assert(label.skip("via_"@.len() as int) =~= name);
    }
    if label == "published_to_"@ + name {
        assert(label.take("published_to_"@.len() as int) =~= "published_to_"@);
        assert(label.skip("published_to_"@.len() as int) =~= name);
        assert(label[0] == 'p');
        if begins_with(label, "via_"@) {
            assert(label.take("via_"@.len() as int)[0] == 'v');
        }
    }
    assert(tells_edge(label, words, name));
    lemma_edge_line_is_there(nodes, edges, tree@.labels, edges.len() as int, k);
    let before = header() + node_lines(nodes, false, n) + divider() + node_lines(nodes, true, n) + "  }\n\n\n  // Edges\n"@;
    lemma_occurs_in(
        before,
        edge_lines(nodes, edges, tree@.labels, edges.len() as int),
        "}\n"@,
        "  \""@ + nodes[edges[k].0 as int].node_id@ + "\" -> \""@ + nodes[edges[k].1 as int].node_id@ + "\" [label=\""@ + words
            + "\"];\n"@,
    );
}

} // verus!
