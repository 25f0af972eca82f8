use dagger::dash_table::DashTable;
use dagger::graph::Digraph;
use dagger::schema::{judged, judged_briefly, validate_input, validate_output, Verdict};
use dagger::string_map::{copy_texts, StringMap, StringSet};
use dagger::text::{
    byte_len, cat5, chars_of, contains_text, dec, dec_rem, dec_signed, dec_usize, has_char, join, parse_dec, same, split,
    starts_with, strip_prefix, text_of,
};
use dagger::value::{object, set_member, string, Value};

fn texts(items: &[&str]) -> Vec<String> {
    items.iter().map(|s| s.to_string()).collect()
}

#[test]
fn numbers_are_written_in_decimal() {
    assert_eq!(dec(0), "0");
    assert_eq!(dec(18_446_744_073_709_551_615), "18446744073709551615");
    assert_eq!(dec_usize(1207), "1207");
    assert_eq!(dec_signed(-35), "-35");
    assert_eq!(dec_signed(i64::MIN), "-9223372036854775808");
    assert_eq!(dec_rem(1_234_567_890, 1_000_000), "567890");
    assert_eq!(dec_rem(-7, 5), "-2");
}

#[test]
fn numbers_are_read_in_decimal() {
    assert_eq!(parse_dec("42"), Some(42));
    assert_eq!(parse_dec("0"), Some(0));
    assert_eq!(parse_dec("042"), None);
    assert_eq!(parse_dec("18446744073709551615"), Some(u64::MAX));
    assert_eq!(parse_dec("18446744073709551616"), None);
    assert_eq!(parse_dec(""), None);
    assert_eq!(parse_dec("1.5"), None);
}

#[test]
fn texts_are_taken_apart_and_put_together() {
    assert_eq!(split("a.b.c", '.'), texts(&["a", "b", "c"]));
    assert_eq!(split("", '.'), texts(&[""]));
    assert_eq!(split("..", '.'), texts(&["", "", ""]));
    assert_eq!(join(&texts(&["a", "b", "c"]), ", "), "a, b, c");
    assert_eq!(join(&Vec::new(), ", "), "");
    assert_eq!(cat5("a", "b", "c", "d", "e"), "abcde");
    assert_eq!(strip_prefix("inputs.key", "inputs."), Some("key".to_string()));
    assert_eq!(strip_prefix("key", "inputs."), None);
    assert!(starts_with("retry", "re"));
    assert!(!starts_with("re", "retry"));
    assert!(contains_text("network timeout", "time"));
    assert!(contains_text("network", ""));
    assert!(!contains_text("time", "timeout"));
    assert!(has_char("a:b", ':'));
    assert!(!has_char("ab", ':'));
    assert!(same("x", "x"));
    assert!(!same("x", "y"));
}

#[test]
fn length_counts_bytes() {
    assert_eq!(byte_len("abc"), 3);
    assert_eq!(byte_len("äb"), 3);
    let cs = chars_of("äbc");
    assert_eq!(cs.len(), 3);
    assert_eq!(text_of(&cs, 1, 3), "bc");
}

#[test]
fn map_keeps_the_order_of_arrival() {
    let mut m: StringMap<u64> = StringMap::new();
    assert!(m.is_empty());
    assert_eq!(m.insert("b".to_string(), 1), None);
    assert_eq!(m.insert("a".to_string(), 2), None);
    assert_eq!(m.insert("b".to_string(), 3), Some(1));
    assert_eq!(m.keys(), texts(&["b", "a"]));
    assert_eq!(m.get("b"), Some(&3));
    assert_eq!(m.key_at(1), "a");
    assert_eq!(*m.value_at(1), 2);
    assert_eq!(m.remove("b"), Some(3));
    assert_eq!(m.remove("b"), None);
    assert!(!m.contains_key("b"));
    assert_eq!(m.len(), 1);
    m.clear();
    assert_eq!(m.len(), 0);
}

#[test]
fn copied_map_says_the_same() {
    let mut m: StringMap<String> = StringMap::new();
    m.insert("k".to_string(), "v".to_string());
    let c = copy_texts(&m);
    assert_eq!(c.get("k").unwrap(), "v");
    assert_eq!(c.len(), 1);
}

#[test]
fn set_has_each_name_once() {
    let mut s = StringSet::new();
    assert!(s.insert("x".to_string()));
    assert!(!s.insert("x".to_string()));
    assert_eq!(s.len(), 1);
    assert_eq!(s.items(), texts(&["x"]));
    assert!(s.remove("x"));
    assert!(!s.remove("x"));
    assert!(s.is_empty());
    assert!(!s.contains("x"));
}

#[test]
fn dash_table_finds_rows() {
    let mut t: DashTable<u64> = DashTable::new();
    assert_eq!(t.insert("a".to_string(), 1), None);
    assert_eq!(t.insert("b".to_string(), 2), None);
    assert_eq!(t.insert("a".to_string(), 3), Some(1));
    assert_eq!(t.len(), 2);
    assert_eq!(t.get("a"), Some(&3));
    assert_eq!(t.get("c"), None);
    assert_eq!(t.remove("a"), Some(3));
    assert_eq!(t.get("b"), Some(&2));
    assert!(!t.contains_key("a"));
    t.clear();
    assert_eq!(t.len(), 0);
    assert_eq!(t.get("b"), None);
}

#[test]
fn objects_are_read_by_key() {
    let mut members: Vec<(String, Value)> = Vec::new();
    set_member(&mut members, "b", string("x"));
    set_member(&mut members, "a", Value::Null);
    set_member(&mut members, "b", string("y"));
    assert_eq!(members.len(), 2);
    let o = object(members);
    assert_eq!(o.get("b").unwrap().as_str(), Some("y"));
    assert!(o.get("a").unwrap().is_null());
    assert!(o.get("c").is_none());
    assert!(o.as_array().is_none());
    assert_eq!(Value::Array(vec![Value::Null]).as_array().unwrap().len(), 1);
}

#[test]
fn graph_knows_its_edges() {
    let mut g = Digraph::new();
    assert_eq!(g.add_node(), 0);
    assert_eq!(g.add_node(), 1);
    assert_eq!(g.add_node(), 2);
    g.add_edge(0, 2);
    g.add_edge(1, 2);
    assert_eq!(g.node_count(), 3);
    assert_eq!(g.edge_list(), vec![(0, 2), (1, 2)]);
    let mut sources = g.sources(2);
    sources.sort();
    assert_eq!(sources, vec![0, 1]);
    assert!(g.sources(0).is_empty());
    assert!(!g.is_cyclic());
    let order = g.topo_order();
    assert_eq!(order.len(), 3);
    assert_eq!(order[2], 2);
    let mut c = g.duplicate();
    c.add_edge(2, 0);
    assert!(c.is_cyclic());
    assert!(!g.is_cyclic());
}

#[test]
fn topological_order_leaves_cycles_out() {
    let mut g = Digraph::new();
    g.add_node();
    g.add_node();
    g.add_node();
    g.add_edge(1, 2);
    g.add_edge(2, 1);
    assert_eq!(g.topo_order(), vec![0]);
}

const SCHEMA: &str = "{\"type\":\"object\",\"properties\":{\"n\":{\"type\":\"integer\"}},\"required\":[\"n\"]}";

#[test]
fn messages_are_held_to_their_schema() {
    assert!(validate_input(SCHEMA, "{\"n\":3}").is_ok());
    assert!(validate_output(SCHEMA, "{\"n\":3}").is_ok());
    let e = validate_input(SCHEMA, "{\"n\":\"three\"}").unwrap_err();
    assert!(e.starts_with("Invalid input: "));
    let e = validate_output(SCHEMA, "{}").unwrap_err();
    assert!(e.starts_with("Invalid output: "));
    let e = validate_input("{\"type\":\"nothing\"}", "{}").unwrap_err();
    assert!(e.starts_with("Failed to compile input schema: "));
    let e = validate_input(SCHEMA, "{").unwrap_err();
    assert!(e.starts_with("Failed to read input: "));
    let e = validate_output(SCHEMA, "{} {}").unwrap_err();
    assert!(e.starts_with("Failed to read output: "));
}

#[test]
fn deep_messages_are_held_to_their_schema() {
    let deep = format!("{}{}", "[".repeat(300), "]".repeat(300));
    assert!(validate_input("{\"type\":\"array\"}", &deep).is_ok());
    let e = validate_input("{\"type\":\"object\"}", &deep).unwrap_err();
    assert!(e.starts_with("Invalid input: "));
    let schema = format!("{}{{\"type\":\"array\"}}{}", "{\"items\":".repeat(150), "}".repeat(150));
    assert!(validate_input(&schema, &deep).is_ok());
    let short = format!("{}1{}", "[".repeat(150), "]".repeat(150));
    assert!(validate_input(&schema, &short).unwrap_err().starts_with("Invalid input: "));
}

#[test]
fn verdicts_are_put_into_words() {
    assert!(judged(Verdict::Valid, "input").is_ok());
    assert_eq!(judged(Verdict::Invalid("no n".to_string()), "input").unwrap_err(), "Invalid input: no n");
    assert_eq!(
        judged(Verdict::NoSchema("broken".to_string()), "output").unwrap_err(),
        "Failed to compile output schema: broken",
    );
    assert_eq!(
        judged_briefly(Verdict::Invalid("no n".to_string()), "input").unwrap_err(),
        "Invalid input message schema",
    );
    assert!(judged_briefly(Verdict::Valid, "input").is_ok());
    assert_eq!(judged(Verdict::NoDocument("end".to_string()), "input").unwrap_err(), "Failed to read input: end");
    assert_eq!(judged_briefly(Verdict::NoDocument("end".to_string()), "output").unwrap_err(), "Failed to read output: end");
}
