//! Execution trees as DOT graphs.

use super::node::{Graph, Node};
use super::tree::{node_position, ExecutionTree, NodeSnapshot, Timestamp};
use crate::string_map::{StringMap, StringSet};
use crate::text::{
    begins_with, byte_count, cat2, cat3, cat5, chars_of, dec, decimal, lemma_occurs_between, lemma_occurs_in,
    lemma_short_decimal, number_said, occurs, owned, same, starts_with, text_of,
};
use vstd::prelude::*;
use vstd::utf8::{
    decode_utf8, decode_utf8_encode_utf8, decode_utf8_split, encode_utf8, encode_utf8_decode_utf8, encode_utf8_valid_utf8,
    is_char_boundary, valid_utf8_split,
};

verus! {

/// A character that is cut off around a value.
pub open spec fn is_wrapping(c: char) -> bool {
    c == '"' || c == '[' || c == ']' || c == '{' || c == '}'
}

/// `s` without the wrapping characters at its front.
pub open spec fn unwrapped_front(s: Seq<char>) -> Seq<char>
    decreases s.len(),
{
    if s.len() > 0 && is_wrapping(s[0]) {
        unwrapped_front(s.drop_first())
    } else {
        s
    }
}

/// `s` without the wrapping characters at its end.
pub open spec fn unwrapped_back(s: Seq<char>) -> Seq<char>
    decreases s.len(),
{
    if s.len() > 0 && is_wrapping(s.last()) {
        unwrapped_back(s.drop_last())
    } else {
        s
    }
}

/// `s` without the wrapping characters around it.
pub open spec fn unwrapped(s: Seq<char>) -> Seq<char> {
    unwrapped_back(unwrapped_front(s))
}

/// A value as it is shown: without wrapping characters, and cut to 47 bytes and three dots
/// where it has more than 50 bytes.
pub open spec fn flattened(s: Seq<char>) -> Seq<char> {
    let t = unwrapped(s);
    if encode_utf8(t).len() > 50 {
        decode_utf8(encode_utf8(t).subrange(0, 47)) + "..."@
    } else {
        t
    }
}

/// Whether a value can be shown: where it is cut, a character ends.
pub open spec fn can_be_shown(s: Seq<char>) -> bool {
    encode_utf8(unwrapped(s)).len() > 50 ==> is_char_boundary(encode_utf8(unwrapped(s)), 47)
}

fn wraps(c: char) -> (r: bool)
    ensures
        r == is_wrapping(c),
{
    c == '"' || c == '[' || c == ']' || c == '{' || c == '}'
}

fn unwrap_text(s: &str) -> (r: String)
    ensures
        r@ == unwrapped(s@),
{
    let cs = chars_of(s);
    let mut lo: usize = 0;
    proof {
        assert(s@.skip(0) =~= s@);
    }
    while lo < cs.len() && wraps(cs[lo])
        invariant
            lo <= cs.len(),
            cs@ == s@,
            unwrapped_front(s@) == unwrapped_front(s@.skip(lo as int)),
        decreases cs.len() - lo,
    {
        proof {
            assert(s@.skip(lo as int).drop_first() =~= s@.skip(lo + 1));
        }
        lo = lo + 1;
    }
    let ghost front = s@.skip(lo as int);
    let mut hi: usize = cs.len();
    proof {
        assert(front == unwrapped_front(s@));
        assert(front.take(hi - lo) =~= front);
    }
    while hi > lo && wraps(cs[hi - 1])
        invariant
            lo <= hi <= cs.len(),
            cs@ == s@,
            front == s@.skip(lo as int),
            unwrapped_back(front) == unwrapped_back(front.take(hi - lo)),
        decreases hi - lo,
    {
        proof {
            assert(front.take(hi - lo).drop_last() =~= front.take(hi - lo - 1));
            assert(front.take(hi - lo).last() == s@[hi - 1]);
        }
        hi = hi - 1;
    }
    proof {
        assert(s@.subrange(lo as int, hi as int) =~= front.take(hi - lo));
        if hi > lo {
            assert(front.take(hi - lo).last() == s@[hi - 1]);
        }
    }
    text_of(&cs, lo, hi)
}

/// Shows a value.
pub fn flatten_value(value: &str) -> (r: String)
    requires
        can_be_shown(value@),
    ensures
        r@ == flattened(value@),
{
    let trimmed = unwrap_text(value);
    if trimmed.as_str().as_bytes().len() > 50 {
        let (head, _) = trimmed.as_str().split_at(47);
        proof {
            encode_utf8_decode_utf8(head@);
            assert(encode_utf8(head@) =~= encode_utf8(trimmed@).subrange(0, 47));
        }
        cat2(head, "...")
    } else {
        trimmed
    }
}

/// A number below 100 with two digits.
pub open spec fn two_digits(n: nat) -> Seq<char> {
    if n < 10 {
        "0"@ + decimal(n)
    } else {
        decimal(n)
    }
}

/// The time of day as `hours:minutes:seconds`.
pub open spec fn clock_text(t: Timestamp) -> Seq<char> {
    let s = t.secs as int % 86400;
    two_digits((s / 3600) as nat) + ":"@ + two_digits((s / 60 % 60) as nat) + ":"@ + two_digits(
        (s % 60 + t.nanos as int / 1_000_000_000) as nat,
    )
}

fn pad2(n: u64) -> (r: String)
    ensures
        r@ == two_digits(n as nat),
{
    if n < 10 {
        cat2("0", dec(n).as_str())
    } else {
        dec(n)
    }
}

/// The time of day.
pub fn time_of_day(t: &Timestamp) -> (r: String)
    ensures
        r@ == clock_text(*t),
{
    let shifted: i128 = t.secs as i128 + 17_280_000_000_000_000_000;
    proof {
        vstd::arithmetic::div_mod::lemma_mod_multiples_vanish(200_000_000_000_000, t.secs as int, 86400);
        assert(shifted == 86400 * 200_000_000_000_000 + t.secs);
    }
    let s: u64 = (shifted as u128 % 86400) as u64;
    let nanos: u64 = t.nanos as u64;
    cat5(
        pad2(s / 3600).as_str(),
        ":",
        pad2(s / 60 % 60).as_str(),
        ":",
        pad2(s % 60 + nanos / 1_000_000_000).as_str(),
    )
}

/// A row of the table of a node.
pub open spec fn value_row(key: Seq<char>, value: Seq<char>) -> Seq<char> {
    "<TR><TD><I>"@ + key + "</I>: "@ + flattened(value) + "</TD></TR>\n"@
}

/// Whether a value counts as an input of its node: by its name, or because it is the only one.
pub open spec fn counts_as_input(key: Seq<char>, total: nat) -> bool {
    begins_with(key, "input_"@) || total == 1
}

/// Whether a value counts as an output of its node.
pub open spec fn counts_as_output(key: Seq<char>, total: nat) -> bool {
    !counts_as_input(key, total) && (begins_with(key, "output_"@) || key == "retrieved_data"@)
}

/// The rows of the values of a node that `inputs` picks: inputs or outputs.
pub open spec fn value_rows(values: Seq<(String, String)>, total: nat, inputs: bool) -> Seq<char>
    decreases values.len(),
{
    if values.len() == 0 {
        Seq::empty()
    } else {
        let rest = value_rows(values.drop_last(), total, inputs);
        let (key, value) = values.last();
        let picked = if inputs {
            counts_as_input(key@, total)
        } else {
            counts_as_output(key@, total)
        };
        if picked {
            rest + value_row(key@, value@)
        } else {
            rest
        }
    }
}

/// Whether a node has values that `inputs` picks.
pub open spec fn has_rows(values: Seq<(String, String)>, total: nat, inputs: bool) -> bool {
    exists|i: int| 0 <= i < values.len() && if inputs {
        counts_as_input((#[trigger] values[i]).0@, total)
    } else {
        counts_as_output(values[i].0@, total)
    }
}

/// The inputs and outputs of a node.
pub open spec fn values_text(values: Seq<(String, String)>) -> Seq<char> {
    let n = values.len();
    (if has_rows(values, n, true) {
        "<TR><TD BGCOLOR=\"#E8F0FE\"><B>Inputs</B></TD></TR>\n"@ + value_rows(values, n, true)
    } else {
        Seq::empty()
    }) + (if has_rows(values, n, false) {
        "<TR><TD BGCOLOR=\"#E8F0FE\"><B>Outputs</B></TD></TR>\n"@ + value_rows(values, n, false)
    } else {
        Seq::empty()
    })
}

/// The action of the first node called `id` in the first definition that has one.
pub open spec fn action_of(graphs: Seq<(String, Graph)>, id: Seq<char>) -> Seq<char>
    decreases graphs.len(),
{
    if graphs.len() == 0 {
        "unknown"@
    } else if exists|i: int| node_at(graphs[0].1.nodes@, id, i) {
        graphs[0].1.nodes@[choose|i: int| node_at(graphs[0].1.nodes@, id, i)].action@
    } else {
        action_of(graphs.drop_first(), id)
    }
}

/// Node `i` is the first called `id`.
pub open spec fn node_at(nodes: Seq<Node>, id: Seq<char>, i: int) -> bool {
    &&& 0 <= i < nodes.len()
    &&& nodes[i].id@ == id
    &&& forall|j: int| 0 <= j < i ==> (#[trigger] nodes[j]).id@ != id
}

/// The values of a node.
pub open spec fn values_of(m: Map<Seq<char>, Vec<(String, String)>>, id: Seq<char>) -> Seq<(String, String)> {
    if m.contains_key(id) {
        m[id]@
    } else {
        Seq::empty()
    }
}

/// The label of a node: a table with its action, its values, what became of it and when.
pub open spec fn node_label(s: NodeSnapshot, action: Seq<char>, values: Seq<(String, String)>) -> Seq<char> {
    "<<TABLE BORDER=\"0\" CELLBORDER=\"1\" CELLSPACING=\"0\" CELLPADDING=\"4\">\n<TR><TD BGCOLOR=\"#E8E8E8\"><B>"@
        + s.node_id@ + "</B></TD></TR>\n"@ + ("<TR><TD>Action: "@ + action + "</TD></TR>\n"@) + values_text(values) + (
    if s.outcome.success {
        "<TR><TD BGCOLOR=\"#E6FFE6\">✓ Success</TD></TR>\n"@
    } else {
        "<TR><TD BGCOLOR=\"#FFE6E6\">✗ Failed</TD></TR>\n"@
    }) + ("<TR><TD>Time: "@ + clock_text(s.timestamp) + "</TD></TR>\n"@) + (if !s.outcome.success
        && s.outcome.final_error is Some {
        "<TR><TD><FONT COLOR=\"red\">Error: "@ + flattened(s.outcome.final_error->0@) + "</FONT></TD></TR>\n"@
    } else {
        Seq::empty()
    }) + "</TABLE>>"@
}

/// The line of a node.
pub open spec fn node_line(s: NodeSnapshot, action: Seq<char>, values: Seq<(String, String)>) -> Seq<char> {
    "  \""@ + s.node_id@ + "\" [label="@ + node_label(s, action, values) + (if s.outcome.success {
        ", color=green, fontcolor=black];\n"@
    } else {
        ", color=red, fontcolor=black];\n"@
    })
}

/// Whether a node of the same id stands before the one at `i`.
pub open spec fn repeated(nodes: Seq<NodeSnapshot>, i: int) -> bool {
    exists|j: int| 0 <= j < i && (#[trigger] nodes[j]).node_id@ == nodes[i].node_id@
}

/// The lines of the first `n` nodes; a node that ran again has one line.
pub open spec fn node_lines(
    nodes: Seq<NodeSnapshot>,
    graphs: Seq<(String, Graph)>,
    values: Map<Seq<char>, Vec<(String, String)>>,
    n: int,
) -> Seq<char>
    decreases n,
{
    if n <= 0 {
        Seq::empty()
    } else {
        let before = node_lines(nodes, graphs, values, n - 1);
        let s = nodes[n - 1];
        if repeated(nodes, n - 1) {
            before
        } else {
            before + node_line(s, action_of(graphs, s.node_id@), values_of(values, s.node_id@))
        }
    }
}

/// The two ends of an edge, as a text.
pub open spec fn edge_key(nodes: Seq<NodeSnapshot>, e: (nat, nat)) -> Seq<char> {
    nodes[e.0 as int].node_id@ + "->"@ + nodes[e.1 as int].node_id@
}

/// The line of an edge.
pub open spec fn edge_line(nodes: Seq<NodeSnapshot>, e: (nat, nat), label: Seq<char>) -> Seq<char> {
    "  \""@ + nodes[e.0 as int].node_id@ + "\" -> \""@ + nodes[e.1 as int].node_id@ + "\" [label=\""@ + label + "\"];\n"@
}

/// Whether an edge with the same ends stands before the one at `k`.
pub open spec fn edge_repeated(nodes: Seq<NodeSnapshot>, edges: Seq<(nat, nat)>, k: int) -> bool {
    exists|j: int| 0 <= j < k && #[trigger] edge_key(nodes, edges[j]) == edge_key(nodes, edges[k])
}

/// The lines of the first `n` edges; edges with the same ends have one line.
pub open spec fn edge_lines(
    nodes: Seq<NodeSnapshot>,
    edges: Seq<(nat, nat)>,
    labels: Seq<(Seq<char>, Seq<char>)>,
    n: int,
) -> Seq<char>
    decreases n,
{
    if n <= 0 {
        Seq::empty()
    } else {
        let before = edge_lines(nodes, edges, labels, n - 1);
        if edge_repeated(nodes, edges, n - 1) {
            before
        } else {
            before + edge_line(nodes, edges[n - 1], labels[n - 1].1)
        }
    }
}

/// What comes before the nodes.
pub open spec fn dot_header() -> Seq<char> {
    "digraph ExecutionFlow {\n"@ + "  graph [rankdir=LR, nodesep=0.5, ranksep=1.0];\n"@
        + "  node [shape=box, style=rounded, fontname=\"Helvetica\", width=1.5];\n"@ + "  edge [fontsize=10];\n\n"@
}

/// An execution tree as a DOT graph.
pub open spec fn dot_text(
    nodes: Seq<NodeSnapshot>,
    edges: Seq<(nat, nat)>,
    labels: Seq<(Seq<char>, Seq<char>)>,
    graphs: Seq<(String, Graph)>,
    values: Map<Seq<char>, Vec<(String, String)>>,
) -> Seq<char> {
    dot_header() + node_lines(nodes, graphs, values, nodes.len() as int) + "\n  // Edges\n"@ + edge_lines(
        nodes,
        edges,
        labels,
        edges.len() as int,
    ) + "}\n"@
}

/// Whether the node at `i` is shown, and one of its values or its error is `text`.
pub open spec fn shows(nodes: Seq<NodeSnapshot>, values: Map<Seq<char>, Vec<(String, String)>>, i: int, text: Seq<char>) -> bool {
    let node = nodes[i];
    &&& 0 <= i < nodes.len()
    &&& !repeated(nodes, i)
    &&& {
        ||| !node.outcome.success && node.outcome.final_error is Some && node.outcome.final_error->0@ == text
        ||| values.contains_key(node.node_id@) && exists|j: int|
            0 <= j < values[node.node_id@]@.len() && (#[trigger] values[node.node_id@]@[j]).1@ == text
    }
}

/// Whether all values and errors that are shown can be.
pub open spec fn all_can_be_shown(nodes: Seq<NodeSnapshot>, values: Map<Seq<char>, Vec<(String, String)>>) -> bool {
    forall|i: int, text: Seq<char>| #[trigger] shows(nodes, values, i, text) ==> can_be_shown(text)
}

fn find_action(graphs: &StringMap<Graph>, id: &str) -> (r: String)
    ensures
        r@ == action_of(graphs.pairs(), id@),
{
    let n: usize = graphs.len();
    let ghost pairs = graphs.pairs();
    let mut i: usize = 0;
    proof {
        assert(pairs.skip(0) =~= pairs);
    }
    while i < n
        invariant
            i <= n,
            n == pairs.len(),
            pairs == graphs.pairs(),
            action_of(pairs, id@) == action_of(pairs.skip(i as int), id@),
        decreases n - i,
    {
        let g = graphs.value_at(i);
        let ghost rest = pairs.skip(i as int);
        proof {
            assert(rest[0] == pairs[i as int]);
            assert(rest.drop_first() =~= pairs.skip(i + 1));
        }
        match node_position(g, id) {
            Some(k) => {
                proof {
                    assert(node_at(g.nodes@, id@, k as int));
                    let m = choose|m: int| node_at(g.nodes@, id@, m);
                    if m < k {
                        assert(g.nodes@[m].id@ != id@);
                    } else if m > k {
                        assert(g.nodes@[k as int].id@ == id@);
                    }
                }
                return g.nodes[k].action.clone();
            },
            None => {
                proof {
                    if exists|m: int| node_at(g.nodes@, id@, m) {
                        let m = choose|m: int| node_at(g.nodes@, id@, m);
                        assert(g.nodes@[m].id@ == id@);
                    }
                }
            },
        }
        i = i + 1;
    }
    proof {
        assert(pairs.skip(i as int) =~= Seq::<(String, Graph)>::empty());
    }
    owned("unknown")
}

fn rows_text(values: &Vec<(String, String)>, inputs: bool) -> (r: (bool, String))
    requires
        forall|j: int| 0 <= j < values@.len() ==> can_be_shown((#[trigger] values@[j]).1@),
    ensures
        r.0 == has_rows(values@, values@.len(), inputs),
        r.1@ == value_rows(values@, values@.len(), inputs),
{
    let mut text: String = String::new();
    let mut any: bool = false;
    let total: usize = values.len();
    let mut i: usize = 0;
    proof {
        assert(values@.take(0) =~= Seq::<(String, String)>::empty());
    }
    while i < values.len()
        invariant
            i <= values@.len(),
            total == values@.len(),
            forall|j: int| 0 <= j < values@.len() ==> can_be_shown((#[trigger] values@[j]).1@),
            text@ == value_rows(values@.take(i as int), total as nat, inputs),
            any == has_rows(values@.take(i as int), total as nat, inputs),
        decreases values.len() - i,
    {
        let ghost before = values@.take(i as int);
        let ghost after = values@.take(i + 1);
        proof {
            assert(after.drop_last() =~= before);
            assert(after.last() == values@[i as int]);
        }
        let key = values[i].0.as_str();
        let as_input: bool = starts_with(key, "input_") || total == 1;
        let picked: bool = if inputs {
            as_input
        } else {
            !as_input && (starts_with(key, "output_") || same(key, "retrieved_data"))
        };
        proof {
            if picked {
                assert(after[i as int].0@ == key@);
                assert(has_rows(after, total as nat, inputs));
            } else {
                if has_rows(after, total as nat, inputs) {
                    let k = choose|k: int| 0 <= k < after.len() && if inputs {
                        counts_as_input((#[trigger] after[k]).0@, total as nat)
                    } else {
                        counts_as_output(after[k].0@, total as nat)
                    };
                    assert(before[k] == after[k]);
                    assert(has_rows(before, total as nat, inputs));
                }
                if has_rows(before, total as nat, inputs) {
                    let k = choose|k: int| 0 <= k < before.len() && if inputs {
                        counts_as_input((#[trigger] before[k]).0@, total as nat)
                    } else {
                        counts_as_output(before[k].0@, total as nat)
                    };
                    assert(before[k] == after[k]);
                }
            }
        }
        if picked {
            any = true;
            let shown = flatten_value(values[i].1.as_str());
            let row = cat5("<TR><TD><I>", key, "</I>: ", shown.as_str(), "</TD></TR>\n");
            text.append(row.as_str());
        }
        i = i + 1;
    }
    proof {
        assert(values@.take(i as int) =~= values@);
    }
    (any, text)
}

fn values_to_text(values: &Vec<(String, String)>) -> (r: String)
    requires
        forall|j: int| 0 <= j < values@.len() ==> can_be_shown((#[trigger] values@[j]).1@),
    ensures
        r@ == values_text(values@),
{
    let mut text: String = String::new();
    let (any, rows) = rows_text(values, true);
    if any {
        text.append("<TR><TD BGCOLOR=\"#E8F0FE\"><B>Inputs</B></TD></TR>\n");
        text.append(rows.as_str());
    }
    let ghost first = text@;
    let (any, rows) = rows_text(values, false);
    if any {
        text.append("<TR><TD BGCOLOR=\"#E8F0FE\"><B>Outputs</B></TD></TR>\n");
        text.append(rows.as_str());
    }
    proof {
        let n = values@.len();
        let a = if has_rows(values@, n, true) {
            "<TR><TD BGCOLOR=\"#E8F0FE\"><B>Inputs</B></TD></TR>\n"@ + value_rows(values@, n, true)
        } else {
            Seq::<char>::empty()
        };
        let b = if has_rows(values@, n, false) {
            "<TR><TD BGCOLOR=\"#E8F0FE\"><B>Outputs</B></TD></TR>\n"@ + value_rows(values@, n, false)
        } else {
            Seq::<char>::empty()
        };
        assert(first =~= a);
        assert(text@ =~= a + b);
    }
    text
}

fn label_of(s: &NodeSnapshot, action: &str, values: Option<&Vec<(String, String)>>) -> (r: String)
    requires
        values matches Some(v) ==> forall|j: int| 0 <= j < v@.len() ==> can_be_shown((#[trigger] v@[j]).1@),
        !s.outcome.success && s.outcome.final_error is Some ==> can_be_shown(s.outcome.final_error->0@),
    ensures
        r@ == node_label(
            *s,
            action@,
            match values {
                Some(v) => v@,
                None => Seq::empty(),
            },
        ),
{
    let mut label = cat3(
        "<<TABLE BORDER=\"0\" CELLBORDER=\"1\" CELLSPACING=\"0\" CELLPADDING=\"4\">\n<TR><TD BGCOLOR=\"#E8E8E8\"><B>",
        s.node_id.as_str(),
        "</B></TD></TR>\n",
    );
    label.append(cat3("<TR><TD>Action: ", action, "</TD></TR>\n").as_str());
    let ghost head = label@;
    match values {
        Some(v) => {
            let text = values_to_text(v);
            label.append(text.as_str());
        },
        None => {
            proof {
                let none = Seq::<(String, String)>::empty();
                assert(values_text(none) =~= Seq::<char>::empty());
                assert(head + values_text(none) =~= head);
            }
        },
    }
    if s.outcome.success {
        label.append("<TR><TD BGCOLOR=\"#E6FFE6\">✓ Success</TD></TR>\n");
    } else {
        label.append("<TR><TD BGCOLOR=\"#FFE6E6\">✗ Failed</TD></TR>\n");
    }
    let time = time_of_day(&s.timestamp);
    label.append(cat3("<TR><TD>Time: ", time.as_str(), "</TD></TR>\n").as_str());
    let ghost before = label@;
    let mut failed: bool = false;
    if !s.outcome.success {
        if let Some(error) = &s.outcome.final_error {
            let shown = flatten_value(error.as_str());
            label.append(
                cat3("<TR><TD><FONT COLOR=\"red\">Error: ", shown.as_str(), "</FONT></TD></TR>\n").as_str(),
            );
            failed = true;
        }
    }
    proof {
        if !failed {
            assert(before + Seq::<char>::empty() =~= before);
        }
    }
    label.append("</TABLE>>");
    label
}

/// An execution tree as a DOT graph. `values` holds, for each node, its keys and the JSON
/// texts of its values.
pub fn serialize_tree_to_dot(
    tree: &ExecutionTree,
    graphs: &StringMap<Graph>,
    values: &StringMap<Vec<(String, String)>>,
) -> (r: String)
    requires
        tree.wf(),
        all_can_be_shown(tree.nodes@, values@),
    ensures
        r@ == dot_text(tree.nodes@, tree@.edges, tree@.labels, graphs.pairs(), values@),
{
    let ghost nodes = tree.nodes@;
    let ghost pairs = graphs.pairs();
    let mut dot = cat3(
        "digraph ExecutionFlow {\n",
        "  graph [rankdir=LR, nodesep=0.5, ranksep=1.0];\n",
        "  node [shape=box, style=rounded, fontname=\"Helvetica\", width=1.5];\n",
    );
    dot.append("  edge [fontsize=10];\n\n");
    let mut seen = StringSet::new();
    let mut i: usize = 0;
    proof {
        assert(dot_header() + node_lines(nodes, pairs, values@, 0) =~= dot_header());
    }
    while i < tree.nodes.len()
        invariant
            i <= tree.nodes@.len(),
            nodes == tree.nodes@,
            pairs == graphs.pairs(),
            all_can_be_shown(nodes, values@),
            forall|k: Seq<char>| #[trigger]
                seen@.contains(k) <==> exists|j: int| 0 <= j < i && (#[trigger] nodes[j]).node_id@ == k,
            dot@ == dot_header() + node_lines(nodes, pairs, values@, i as int),
        decreases tree.nodes.len() - i,
    {
        let s = &tree.nodes[i];
        let id = s.node_id.as_str();
        let ghost before = dot@;
        let known: bool = seen.contains(id);
        proof {
            assert(known == repeated(nodes, i as int));
        }
        if !known {
            let ghost was = seen@;
            seen.insert(s.node_id.clone());
            let action = find_action(graphs, id);
            proof {
                if !s.outcome.success && s.outcome.final_error is Some {
                    assert(shows(nodes, values@, i as int, s.outcome.final_error->0@));
                }
                if values@.contains_key(id@) {
                    let all = values@[id@]@;
                    assert forall|j: int| 0 <= j < all.len() implies can_be_shown((#[trigger] all[j]).1@) by {
                        assert(shows(nodes, values@, i as int, all[j].1@));
                    }
                }
            }
            let label = label_of(s, action.as_str(), values.get(id));
            let line = cat5(
                "  \"",
                id,
                "\" [label=",
                label.as_str(),
                if s.outcome.success {
                    ", color=green, fontcolor=black];\n"
                } else {
                    ", color=red, fontcolor=black];\n"
                },
            );
            dot.append(line.as_str());
            proof {
                let text = node_line(*s, action_of(pairs, id@), values_of(values@, id@));
                assert(line@ == text);
                assert(dot@ =~= dot_header() + (node_lines(nodes, pairs, values@, i as int) + text));
            }
        }
        proof {
            assert forall|k: Seq<char>| #[trigger] seen@.contains(k) <==> exists|j: int|
                0 <= j < i + 1 && (#[trigger] nodes[j]).node_id@ == k by {
                if exists|j: int| 0 <= j < i + 1 && (#[trigger] nodes[j]).node_id@ == k {
                    let j = choose|j: int| 0 <= j < i + 1 && (#[trigger] nodes[j]).node_id@ == k;
                    if j < i {
                        assert(nodes[j].node_id@ == k);
                    }
                }
                if k == nodes[i as int].node_id@ {
                    assert(nodes[i as int].node_id@ == k);
                }
            }
        }
        i = i + 1;
    }
    dot.append("\n  // Edges\n");
    let list = tree.graph.edge_list();
    let ghost edges = tree@.edges;
    let ghost labels = tree@.labels;
    let ghost base = dot@;
    let mut drawn = StringSet::new();
    let mut k: usize = 0;
    proof {
        assert(base + edge_lines(nodes, edges, labels, 0) =~= base);
    }
    while k < list.len()
        invariant
            k <= list@.len(),
            tree.wf(),
            nodes == tree.nodes@,
            edges == tree@.edges,
            labels == tree@.labels,
            list@.len() == edges.len(),
            forall|i: int| 0 <= i < list@.len() ==> (list@[i].0 as nat, (#[trigger] list@[i]).1 as nat) == edges[i],
            forall|t: Seq<char>| #[trigger]
                drawn@.contains(t) <==> exists|j: int| 0 <= j < k && #[trigger] edge_key(nodes, edges[j]) == t,
            dot@ == base + edge_lines(nodes, edges, labels, k as int),
        decreases list.len() - k,
    {
        proof {
            assert(tree.graph.edges()[k as int].0 < tree.graph.size());
        }
        let source = tree.nodes[list[k].0].node_id.as_str();
        let target = tree.nodes[list[k].1].node_id.as_str();
        let key = cat3(source, "->", target);
        let ghost text = key@;
        proof {
            assert(text == edge_key(nodes, edges[k as int]));
        }
        let known: bool = drawn.contains(key.as_str());
        proof {
            assert(known == edge_repeated(nodes, edges, k as int));
        }
        if !known {
            drawn.insert(key);
            let mut line = cat5("  \"", source, "\" -> \"", target, "\" [label=\"");
            line.append(tree.labels[k].label.as_str());
            line.append("\"];\n");
            let ghost before = edge_lines(nodes, edges, labels, k as int);
            dot.append(line.as_str());
            proof {
                assert(labels[k as int].1 == tree.labels@[k as int].label@);
                assert(line@ == edge_line(nodes, edges[k as int], labels[k as int].1));
                assert(dot@ =~= base + (before + line@));
            }
        }
        proof {
            assert forall|t: Seq<char>| #[trigger] drawn@.contains(t) <==> exists|j: int|
                0 <= j < k + 1 && #[trigger] edge_key(nodes, edges[j]) == t by {
                if exists|j: int| 0 <= j < k + 1 && #[trigger] edge_key(nodes, edges[j]) == t {
                    let j = choose|j: int| 0 <= j < k + 1 && #[trigger] edge_key(nodes, edges[j]) == t;
                    if j < k {
                        assert(edge_key(nodes, edges[j]) == t);
                    }
                }
                if t == text {
                    assert(edge_key(nodes, edges[k as int]) == t);
                }
            }
        }
        k = k + 1;
    }
    dot.append("}\n");
    dot
}

/// Whether a text holds nothing but quotation marks, brackets and braces.
pub open spec fn only_marks(s: Seq<char>) -> bool {
    forall|i: int| 0 <= i < s.len() ==> is_mark(#[trigger] s[i])
}

/// Whether a character is a quotation mark, a bracket or a brace.
pub open spec fn is_mark(c: char) -> bool {
    "\"[]{}"@.contains(c)
}

/// Whether `shown` is `core`, or its first 47 bytes and three dots where it has more than 50.
pub open spec fn shown_as(core: Seq<char>, shown: Seq<char>) -> bool {
    if byte_count(core) <= 50 {
        shown == core
    } else {
        exists|n: int| 0 <= n <= core.len() && byte_count(#[trigger] core.take(n)) == 47 && shown == core.take(n) + "..."@
    }
}

proof fn lemma_marks(c: char)
    ensures
        is_mark(c) == is_wrapping(c),
{
    reveal_strlit("\"[]{}");
    let m = "\"[]{}"@;
    assert(m[0] == '"' && m[1] == '[' && m[2] == ']' && m[3] == '{' && m[4] == '}');
    if is_mark(c) {
        let i = choose|i: int| 0 <= i < m.len() && m[i] == c;
        assert(m.len() == 5);
    }
}

proof fn lemma_front(s: Seq<char>) -> (k: int)
    ensures
        0 <= k <= s.len(),
        only_marks(s.take(k)),
        unwrapped_front(s) == s.skip(k),
        k < s.len() ==> !is_mark(s[k]),
    decreases s.len(),
{
    if s.len() > 0 && is_wrapping(s[0]) {
        let rest = s.drop_first();
        let k = lemma_front(rest);
        lemma_marks(s[0]);
        assert(s.skip(k + 1) =~= rest.skip(k));
        assert forall|i: int| 0 <= i < k + 1 implies is_mark(#[trigger] s.take(k + 1)[i]) by {
            if i > 0 {
                assert(rest.take(k)[i - 1] == s[i]);
            }
        }
        k + 1
    } else {
        if s.len() > 0 {
            lemma_marks(s[0]);
        }
        assert(s.skip(0) =~= s);
        0
    }
}

proof fn lemma_back(s: Seq<char>) -> (k: int)
    ensures
        0 <= k <= s.len(),
        only_marks(s.skip(k)),
        unwrapped_back(s) == s.take(k),
        k > 0 ==> !is_mark(s[k - 1]),
    decreases s.len(),
{
    if s.len() > 0 && is_wrapping(s.last()) {
        let rest = s.drop_last();
        let k = lemma_back(rest);
        lemma_marks(s.last());
        assert(s.take(k) =~= rest.take(k));
        assert forall|i: int| 0 <= i < s.len() - k implies is_mark(#[trigger] s.skip(k)[i]) by {
            if i < rest.len() - k {
                assert(rest.skip(k)[i] == s[k + i]);
            }
        }
        k
    } else {
        if s.len() > 0 {
            lemma_marks(s.last());
        }
        assert(s.take(s.len() as int) =~= s);
        s.len() as int
    }
}

/// A value is shown without the quotation marks, brackets and braces around it; where it has
/// more than 50 bytes, its first 47 and three dots are shown.
pub proof fn value_is_shown_without_its_marks(value: &str, r: String)
    requires
        can_be_shown(value@),
        call_ensures(flatten_value, (value,), r),
    ensures
        exists|front: Seq<char>, core: Seq<char>, back: Seq<char>|
            value@ == #[trigger] (front + core + back) && only_marks(front) && only_marks(back) && (core.len() > 0 ==> !is_mark(
                core[0],
            ) && !is_mark(core.last())) && shown_as(core, r@),
{
    let s = value@;
    let a = lemma_front(s);
    let f = s.skip(a);
    let b = lemma_back(f);
    let core = f.take(b);
    let front = s.take(a);
    let back = f.skip(b);
    assert(s =~= front + core + back);
    assert(core == unwrapped(s));
    if core.len() > 0 {
        assert(core[0] == s[a]);
        assert(core.last() == f[b - 1]);
    }
    if byte_count(core) > 50 {
        let bytes = encode_utf8(core);
        encode_utf8_valid_utf8(core);
        encode_utf8_decode_utf8(core);
        valid_utf8_split(bytes, 47);
        decode_utf8_split(bytes, 47);
        let head = decode_utf8(bytes.subrange(0, 47));
        decode_utf8_encode_utf8(bytes.subrange(0, 47));
        assert(core.take(head.len() as int) =~= head);
    }
}

proof fn lemma_two_digits(n: nat)
    requires
        n < 100,
    ensures
        two_digits(n).len() == 2,
        number_said(two_digits(n)) == n,
{
    lemma_short_decimal(n);
    if n < 10 {
        reveal_strlit("0");
        let d = decimal(n);
        let s = two_digits(n);
        assert(s.drop_last() =~= "0"@);
        assert(s.drop_last().drop_last() =~= Seq::<char>::empty());
        assert(d.drop_last() =~= Seq::<char>::empty());
        assert(s.last() == d.last());
        reveal_with_fuel(number_said, 3);
    }
}

/// The time of day is told as hours, minutes and seconds, with two digits each and colons
/// between them.
pub proof fn time_of_day_is_told(t: &Timestamp, r: String)
    requires
        call_ensures(time_of_day, (t,), r),
    ensures
        r@.len() == 8 && r@[2] == ':' && r@[5] == ':',
        number_said(r@.subrange(0, 2)) == t.secs as int % 86_400 / 3_600,
        number_said(r@.subrange(3, 5)) == t.secs as int % 86_400 / 60 % 60,
        number_said(r@.subrange(6, 8)) == t.secs as int % 86_400 % 60 + t.nanos as int / 1_000_000_000,
{
    let s = t.secs as int % 86400;
    let (h, m, x) = ((s / 3600) as nat, (s / 60 % 60) as nat, (s % 60 + t.nanos as int / 1_000_000_000) as nat);
    lemma_two_digits(h);
    lemma_two_digits(m);
    lemma_two_digits(x);
    reveal_strlit(":");
    assert(r@.subrange(0, 2) =~= two_digits(h));
    assert(r@.subrange(3, 5) =~= two_digits(m));
    assert(r@.subrange(6, 8) =~= two_digits(x));
}

/// Whether node `n` of definition `k` is the first called `id`, over all definitions in order.
pub open spec fn first_definition(graphs: Seq<(String, Graph)>, id: Seq<char>, k: int, n: int) -> bool {
    &&& 0 <= k < graphs.len()
    &&& 0 <= n < graphs[k].1.nodes@.len()
    &&& graphs[k].1.nodes@[n].id@ == id
    &&& forall|m: int| 0 <= m < n ==> (#[trigger] graphs[k].1.nodes@[m]).id@ != id
    &&& forall|j: int| 0 <= j < k ==> defines_none(#[trigger] graphs[j], id)
}

/// Whether no node of a definition is called `id`.
pub open spec fn defines_none(g: (String, Graph), id: Seq<char>) -> bool {
    forall|m: int| 0 <= m < g.1.nodes@.len() ==> (#[trigger] g.1.nodes@[m]).id@ != id
}

proof fn lemma_action(graphs: Seq<(String, Graph)>, id: Seq<char>)
    ensures
        forall|k: int, n: int| #[trigger]
            first_definition(graphs, id, k, n) ==> action_of(graphs, id) == graphs[k].1.nodes@[n].action@,
        (forall|k: int| 0 <= k < graphs.len() ==> defines_none(#[trigger] graphs[k], id)) ==> action_of(graphs, id) == "unknown"@,
    decreases graphs.len(),
{
    if graphs.len() > 0 {
        let rest = graphs.drop_first();
        lemma_action(rest, id);
        if exists|i: int| node_at(graphs[0].1.nodes@, id, i) {
            let i = choose|i: int| node_at(graphs[0].1.nodes@, id, i);
            assert(!defines_none(graphs[0], id)) by {
                assert(graphs[0].1.nodes@[i].id@ == id);
            }
            assert forall|k: int, n: int| #[trigger] first_definition(graphs, id, k, n) implies action_of(graphs, id)
                == graphs[k].1.nodes@[n].action@ by {
                if k > 0 {
                    assert(defines_none(graphs[0], id));
                }
                if n < i {
                    assert(graphs[0].1.nodes@[n].id@ != id);
                } else if i < n {
                    assert(graphs[0].1.nodes@[i].id@ != id);
                }
            }
        } else {
            assert forall|k: int, n: int| #[trigger] first_definition(graphs, id, k, n) implies action_of(graphs, id)
                == graphs[k].1.nodes@[n].action@ by {
                if k == 0 {
                    assert(node_at(graphs[0].1.nodes@, id, n));
                }
                assert(rest[k - 1] == graphs[k]);
                assert forall|j: int| 0 <= j < k - 1 implies defines_none(#[trigger] rest[j], id) by {
                    assert(defines_none(graphs[j + 1], id));
                }
                assert(first_definition(rest, id, k - 1, n));
            }
            if forall|k: int| 0 <= k < graphs.len() ==> defines_none(#[trigger] graphs[k], id) {
                assert forall|k: int| 0 <= k < rest.len() implies defines_none(#[trigger] rest[k], id) by {
                    assert(defines_none(graphs[k + 1], id));
                }
            }
        }
    }
}

proof fn lemma_node_line_is_there(
    nodes: Seq<NodeSnapshot>,
    graphs: Seq<(String, Graph)>,
    values: Map<Seq<char>, Vec<(String, String)>>,
    n: int,
    i: int,
)
    requires
        0 <= i < n <= nodes.len(),
        !repeated(nodes, i),
    ensures
        occurs(
            node_lines(nodes, graphs, values, n),
            node_line(nodes[i], action_of(graphs, nodes[i].node_id@), values_of(values, nodes[i].node_id@)),
        ),
    decreases n,
{
    let e = Seq::<char>::empty();
    let before = node_lines(nodes, graphs, values, n - 1);
    let line = node_line(
        nodes[n - 1],
        action_of(graphs, nodes[n - 1].node_id@),
        values_of(values, nodes[n - 1].node_id@),
    );
    if i == n - 1 {
        lemma_occurs_between(before, line, e);
        assert(before + line + e =~= before + line);
    } else {
        lemma_node_line_is_there(nodes, graphs, values, n - 1, i);
        if !repeated(nodes, n - 1) {
            lemma_occurs_in(
                e,
                before,
                line,
                node_line(nodes[i], action_of(graphs, nodes[i].node_id@), values_of(values, nodes[i].node_id@)),
            );
            assert(e + before + line =~= before + line);
        }
    }
}

proof fn lemma_edge_line_is_there(nodes: Seq<NodeSnapshot>, edges: Seq<(nat, nat)>, labels: Seq<(Seq<char>, Seq<char>)>, n: int, k: int)
    requires
        0 <= k < n <= edges.len(),
        !edge_repeated(nodes, edges, k),
    ensures
        occurs(edge_lines(nodes, edges, labels, n), edge_line(nodes, edges[k], labels[k].1)),
    decreases n,
{
    let e = Seq::<char>::empty();
    let before = edge_lines(nodes, edges, labels, n - 1);
    let line = edge_line(nodes, edges[n - 1], labels[n - 1].1);
    if k == n - 1 {
        lemma_occurs_between(before, line, e);
        assert(before + line + e =~= before + line);
    } else {
        lemma_edge_line_is_there(nodes, edges, labels, n - 1, k);
        if !edge_repeated(nodes, edges, n - 1) {
            lemma_occurs_in(e, before, line, edge_line(nodes, edges[k], labels[k].1));
            assert(e + before + line =~= before + line);
        }
    }
}

proof fn lemma_row_is_there(values: Seq<(String, String)>, total: nat, inputs: bool, j: int)
    requires
        0 <= j < values.len(),
        if inputs {
            counts_as_input(values[j].0@, total)
        } else {
            counts_as_output(values[j].0@, total)
        },
    ensures
        occurs(value_rows(values, total, inputs), value_row(values[j].0@, values[j].1@)),
    decreases values.len(),
{
    let e = Seq::<char>::empty();
    let rest = values.drop_last();
    let before = value_rows(rest, total, inputs);
    let row = value_row(values.last().0@, values.last().1@);
    if j == values.len() - 1 {
        lemma_occurs_between(before, row, e);
        assert(before + row + e =~= before + row);
    } else {
        assert(rest[j] == values[j]);
        lemma_row_is_there(rest, total, inputs, j);
        lemma_occurs_in(e, before, row, value_row(values[j].0@, values[j].1@));
        assert(e + before + row =~= before + row);
    }
}

proof fn lemma_values_are_there(values: Seq<(String, String)>, j: int)
    requires
        0 <= j < values.len(),
        counts_as_input(values[j].0@, values.len()) || counts_as_output(values[j].0@, values.len()),
    ensures
        occurs(values_text(values), value_row(values[j].0@, values[j].1@)),
{
    let n = values.len();
    let e = Seq::<char>::empty();
    let row = value_row(values[j].0@, values[j].1@);
    let hi = "<TR><TD BGCOLOR=\"#E8F0FE\"><B>Inputs</B></TD></TR>\n"@;
    let ho = "<TR><TD BGCOLOR=\"#E8F0FE\"><B>Outputs</B></TD></TR>\n"@;
    let ins = value_rows(values, n, true);
    let outs = value_rows(values, n, false);
    let a = if has_rows(values, n, true) {
        hi + ins
    } else {
        e
    };
    let b = if has_rows(values, n, false) {
        ho + outs
    } else {
        e
    };
    assert(values_text(values) == a + b);
    if counts_as_input(values[j].0@, n) {
        lemma_row_is_there(values, n, true, j);
        lemma_occurs_in(hi, ins, b, row);
        assert(a + b =~= hi + ins + b);
    } else {
        lemma_row_is_there(values, n, false, j);
        lemma_occurs_in(a + ho, outs, e, row);
        assert(a + b =~= (a + ho) + outs + e);
    }
}

proof fn lemma_parts_of_a_label(
    a: Seq<char>,
    id: Seq<char>,
    b: Seq<char>,
    x: Seq<char>,
    v: Seq<char>,
    s: Seq<char>,
    t: Seq<char>,
    w: Seq<char>,
    z: Seq<char>,
)
    ensures
        occurs(a + id + b + x + v + s + t + w + z, id + b),
        occurs(a + id + b + x + v + s + t + w + z, x),
        occurs(a + id + b + x + v + s + t + w + z, s),
        occurs(a + id + b + x + v + s + t + w + z, t),
        occurs(a + id + b + x + v + s + t + w + z, w),
        forall|p: Seq<char>| #[trigger] occurs(v, p) ==> occurs(a + id + b + x + v + s + t + w + z, p),
{
    let all = a + id + b + x + v + s + t + w + z;
    lemma_occurs_between(a, id + b, x + v + s + t + w + z);
    assert(a + (id + b) + (x + v + s + t + w + z) =~= all);
    lemma_occurs_between(a + id + b, x, v + s + t + w + z);
    assert((a + id + b) + x + (v + s + t + w + z) =~= all);
    lemma_occurs_between(a + id + b + x + v, s, t + w + z);
    assert((a + id + b + x + v) + s + (t + w + z) =~= all);
    lemma_occurs_between(a + id + b + x + v + s, t, w + z);
    assert((a + id + b + x + v + s) + t + (w + z) =~= all);
    lemma_occurs_between(a + id + b + x + v + s + t, w, z);
    assert forall|p: Seq<char>| #[trigger] occurs(v, p) implies occurs(all, p) by {
        lemma_occurs_in(a + id + b + x, v, s + t + w + z, p);
        assert((a + id + b + x) + v + (s + t + w + z) =~= all);
    }
}

/// Whether a label tells the name of a node, what it does, what became of it and when.
pub open spec fn label_tells(label: Seq<char>, s: NodeSnapshot, action: Seq<char>) -> bool {
    &&& occurs(label, s.node_id@ + "</B></TD></TR>\n"@)
    &&& occurs(label, "<TR><TD>Action: "@ + action + "</TD></TR>\n"@)
    &&& s.outcome.success ==> occurs(label, "<TR><TD BGCOLOR=\"#E6FFE6\">✓ Success</TD></TR>\n"@)
    &&& !s.outcome.success ==> occurs(label, "<TR><TD BGCOLOR=\"#FFE6E6\">✗ Failed</TD></TR>\n"@)
    &&& occurs(label, "<TR><TD>Time: "@ + clock_text(s.timestamp) + "</TD></TR>\n"@)
    &&& !s.outcome.success && s.outcome.final_error is Some ==> occurs(
        label,
        "<TR><TD><FONT COLOR=\"red\">Error: "@ + flattened(s.outcome.final_error->0@) + "</FONT></TD></TR>\n"@,
    )
}

/// Whether a drawing has a node with a label, in green where it succeeded and in red where not.
pub open spec fn draws_node(dot: Seq<char>, id: Seq<char>, success: bool, label: Seq<char>) -> bool {
    &&& success ==> occurs(dot, "  \""@ + id + "\" [label="@ + label + ", color=green, fontcolor=black];\n"@)
    &&& !success ==> occurs(dot, "  \""@ + id + "\" [label="@ + label + ", color=red, fontcolor=black];\n"@)
}

/// A node that ran is drawn as it ran first, with a label that tells its name, its action as the
/// definitions have it, what became of it and when, and the inputs and outputs by their names.
pub proof fn each_node_is_drawn(
    tree: &ExecutionTree,
    graphs: &StringMap<Graph>,
    values: &StringMap<Vec<(String, String)>>,
    r: String,
    i: int,
    k: int,
    n: int,
)
    requires
        tree.wf(),
        all_can_be_shown(tree.nodes@, values@),
        call_ensures(serialize_tree_to_dot, (tree, graphs, values), r),
        0 <= i < tree.nodes@.len(),
        forall|j: int| 0 <= j < i ==> (#[trigger] tree.nodes@[j]).node_id@ != tree.nodes@[i].node_id@,
    ensures
        exists|label: Seq<char>, action: Seq<char>|
            {
                &&& #[trigger] draws_node(r@, tree.nodes@[i].node_id@, tree.nodes@[i].outcome.success, label)
                &&& #[trigger] label_tells(label, tree.nodes@[i], action)
                &&& first_definition(graphs.pairs(), tree.nodes@[i].node_id@, k, n) ==> action
                    == graphs.pairs()[k].1.nodes@[n].action@
                &&& (forall|d: int|
                    0 <= d < graphs.pairs().len() ==> defines_none(#[trigger] graphs.pairs()[d], tree.nodes@[i].node_id@))
                    ==> action == "unknown"@
                &&& values@.contains_key(tree.nodes@[i].node_id@) ==> forall|j: int|
                    0 <= j < values@[tree.nodes@[i].node_id@]@.len() && (begins_with(
                        (#[trigger] values@[tree.nodes@[i].node_id@]@[j]).0@,
                        "input_"@,
                    ) || begins_with(values@[tree.nodes@[i].node_id@]@[j].0@, "output_"@) || values@[tree.nodes@[i].node_id@]@[j].0@
                        == "retrieved_data"@ || values@[tree.nodes@[i].node_id@]@.len() == 1) ==> occurs(
                        label,
                        "<TR><TD><I>"@ + values@[tree.nodes@[i].node_id@]@[j].0@ + "</I>: "@ + flattened(
                            values@[tree.nodes@[i].node_id@]@[j].1@,
                        ) + "</TD></TR>\n"@,
                    )
            },
{
    let s = tree.nodes@[i];
    let id = s.node_id@;
    let action = action_of(graphs.pairs(), id);
    let vs = values_of(values@, id);
    let label = node_label(s, action, vs);
    let e = Seq::<char>::empty();
    lemma_action(graphs.pairs(), id);
    assert(!repeated(tree.nodes@, i));
    let lines = node_lines(tree.nodes@, graphs.pairs(), values@, tree.nodes@.len() as int);
    lemma_node_line_is_there(tree.nodes@, graphs.pairs(), values@, tree.nodes@.len() as int, i);
    let behind = "\n  // Edges\n"@ + edge_lines(tree.nodes@, tree@.edges, tree@.labels, tree@.edges.len() as int) + "}\n"@;
    lemma_occurs_in(dot_header(), lines, behind, node_line(s, action, vs));
    assert(dot_header() + lines + behind =~= r@);
    assert(draws_node(r@, id, s.outcome.success, label));
    let success = if s.outcome.success {
        "<TR><TD BGCOLOR=\"#E6FFE6\">✓ Success</TD></TR>\n"@
    } else {
        "<TR><TD BGCOLOR=\"#FFE6E6\">✗ Failed</TD></TR>\n"@
    };
    let error = if !s.outcome.success && s.outcome.final_error is Some {
        "<TR><TD><FONT COLOR=\"red\">Error: "@ + flattened(s.outcome.final_error->0@) + "</FONT></TD></TR>\n"@
    } else {
        e
    };
    lemma_parts_of_a_label(
        "<<TABLE BORDER=\"0\" CELLBORDER=\"1\" CELLSPACING=\"0\" CELLPADDING=\"4\">\n<TR><TD BGCOLOR=\"#E8E8E8\"><B>"@,
        id,
        "</B></TD></TR>\n"@,
        "<TR><TD>Action: "@ + action + "</TD></TR>\n"@,
        values_text(vs),
        success,
        "<TR><TD>Time: "@ + clock_text(s.timestamp) + "</TD></TR>\n"@,
        error,
        "</TABLE>>"@,
    );
    assert(label_tells(label, s, action));
    if values@.contains_key(id) {
        assert forall|j: int|
            0 <= j < vs.len() && (begins_with((#[trigger] vs[j]).0@, "input_"@) || begins_with(vs[j].0@, "output_"@) || vs[j].0@
                == "retrieved_data"@ || vs.len() == 1) implies occurs(
            label,
            "<TR><TD><I>"@ + vs[j].0@ + "</I>: "@ + flattened(vs[j].1@) + "</TD></TR>\n"@,
        ) by {
            lemma_values_are_there(vs, j);
        }
    }
}

/// An edge is drawn from its source to its target, with its label; where an edge with the same
/// ends came before, that one is.
pub proof fn each_edge_is_drawn(
    tree: &ExecutionTree,
    graphs: &StringMap<Graph>,
    values: &StringMap<Vec<(String, String)>>,
    r: String,
    k: int,
)
    requires
        tree.wf(),
        all_can_be_shown(tree.nodes@, values@),
        call_ensures(serialize_tree_to_dot, (tree, graphs, values), r),
        0 <= k < tree@.edges.len(),
        forall|j: int| 0 <= j < k ==> tree.nodes@[(#[trigger] tree@.edges[j]).0 as int].node_id@ + "->"@
            + tree.nodes@[tree@.edges[j].1 as int].node_id@ != tree.nodes@[tree@.edges[k].0 as int].node_id@ + "->"@
            + tree.nodes@[tree@.edges[k].1 as int].node_id@,
    ensures
        occurs(
            r@,
            "  \""@ + tree.nodes@[tree@.edges[k].0 as int].node_id@ + "\" -> \""@
                + tree.nodes@[tree@.edges[k].1 as int].node_id@ + "\" [label=\""@ + tree@.labels[k].1 + "\"];\n"@,
        ),
{
    let nodes = tree.nodes@;
    let edges = tree@.edges;
    assert(!edge_repeated(nodes, edges, k)) by {
        if edge_repeated(nodes, edges, k) {
            let j = choose|j: int| 0 <= j < k && #[trigger] edge_key(nodes, edges[j]) == edge_key(nodes, edges[k]);
            assert(edges[j] == tree@.edges[j]);
        }
    }
    lemma_edge_line_is_there(nodes, edges, tree@.labels, edges.len() as int, k);
    let before = dot_header() + node_lines(nodes, graphs.pairs(), values@, nodes.len() as int) + "\n  // Edges\n"@;
    lemma_occurs_in(
        before,
        edge_lines(nodes, edges, tree@.labels, edges.len() as int),
        "}\n"@,
        edge_line(nodes, edges[k], tree@.labels[k].1),
    );
}

} // verus!
