use dagger::coord::registry::ActionRegistry;
use dagger::dag_flow::branch::{BranchRegistry, BranchState, BranchStatus};
use dagger::dag_flow::cache::{
    append_global_value, as_count, cache_ref_at, generate_cache_ref, generate_node_id, get_global_input, get_input,
    insert_global_value, insert_value, node_id_at, parse_input_from_name, Cache,
};
use dagger::dag_flow::config::DagConfig;
use dagger::dag_flow::dot::{flatten_value, serialize_tree_to_dot, time_of_day};
use dagger::dag_flow::events::{
    branch_event, next_sequence, epoch_millis, now_ms, BufferingEventSink, RuntimeEvent, ENVELOPE_VERSION,
};
use dagger::dag_flow::executor::{normalize_dag_name, DagExecutor};
use dagger::dag_flow::function_action::{bare_node, function_node, store_inputs, FunctionAction};
use dagger::dag_flow::legacy_compat::LegacyNodeActionWrapper;
use dagger::dag_flow::node::{DagError, Graph, IField, Node, NodeExecutionOutcome};
use dagger::dag_flow::planning::{plan_from_llm_output, NodeSpec, Plan};
use dagger::dag_flow::sqlite_cache::{database_url, pack, unpack, Stored};
use dagger::dag_flow::tree::{
    node_position, record_execution_snapshot, update_execution_tree, workflow_of, ExecutionTree, NodeSnapshot,
    SerializableExecutionTree, Timestamp,
};
use dagger::string_map::StringMap;
use dagger::value::{object, string, Value};

fn node(id: &str, deps: &[&str]) -> Node {
    Node {
        id: id.to_string(),
        dependencies: deps.iter().map(|s| s.to_string()).collect(),
        inputs: Vec::new(),
        outputs: Vec::new(),
        action: "work".to_string(),
        failure: String::new(),
        onfailure: true,
        description: String::new(),
        timeout: 30,
        try_count: 3,
        instructions: None,
    }
}

fn graph(name: &str, tags: &[&str], nodes: Vec<Node>) -> Graph {
    Graph {
        nodes,
        name: name.to_string(),
        description: format!("about {}", name),
        instructions: None,
        tags: tags.iter().map(|s| s.to_string()).collect(),
        author: "me".to_string(),
        version: "1".to_string(),
        signature: "s".to_string(),
        config: None,
    }
}

fn executor() -> DagExecutor<u64> {
    let mut r = ActionRegistry::new();
    r.register("work".to_string(), 1);
    r.register("human_interrupt".to_string(), 2);
    DagExecutor::new(None, r)
}

fn loaded() -> DagExecutor<u64> {
    let mut e = executor();
    e.load_graph(graph("flow", &["nightly", "etl"], vec![node("a", &[]), node("b", &["a"])])).unwrap();
    e
}

fn outcome(id: &str, success: bool) -> NodeExecutionOutcome {
    NodeExecutionOutcome {
        node_id: id.to_string(),
        success,
        retry_messages: Vec::new(),
        final_error: if success { None } else { Some("broke [badly]".to_string()) },
    }
}

fn number(n: &str) -> Value {
    Value::Number(n.to_string())
}

fn is_number(v: &Value, n: &str) -> bool {
    matches!(v, Value::Number(t) if t.as_str() == n)
}

fn field(name: &str, reference: &str) -> IField {
    IField { name: name.to_string(), description: None, reference: reference.to_string() }
}

#[test]
fn what_was_stored_is_read() {
    let mut c = Cache::new();
    insert_value(&mut c, "a", "x", number("1"));
    insert_value(&mut c, "a", "x", number("2"));
    insert_value(&mut c, "b", "y", string("t"));
    assert_eq!(c.len(), 2);
    assert!(c.contains_node("a"));
    assert!(is_number(&get_input(&c, "a", "x").unwrap(), "2"));
    assert_eq!(get_input(&c, "z", "x").err().unwrap(), "Node 'z' not found in cache");
    assert_eq!(get_input(&c, "a", "y").err().unwrap(), "Key 'y' not found in node 'a'");
}

#[test]
fn references_are_followed() {
    let mut c = Cache::new();
    insert_value(&mut c, "a", "x", string("t"));
    let fields = vec![field("in", "a.x"), field("odd", "a.x.y"), field("gone", "z.x")];
    assert_eq!(parse_input_from_name(&c, "in", &fields).unwrap().as_str(), Some("t"));
    assert_eq!(parse_input_from_name(&c, "odd", &fields).err().unwrap(), "Invalid reference format: 'a.x.y'");
    assert_eq!(parse_input_from_name(&c, "gone", &fields).err().unwrap(), "Node 'z' not found in cache");
    assert_eq!(parse_input_from_name(&c, "none", &fields).err().unwrap(), "Input field 'none' not found");
}

#[test]
fn global_values_are_kept_per_workflow() {
    let mut c = Cache::new();
    assert!(matches!(get_global_input(&c, "flow", "k"), Err(DagError::InvalidState(t)) if t == "Global inputs not found for DAG 'flow'"));
    insert_global_value(&mut c, "flow", "k", number("1"));
    assert!(is_number(&get_global_input(&c, "flow", "k").unwrap(), "1"));
    assert!(matches!(get_global_input(&c, "flow", "l"), Err(DagError::InvalidState(t)) if t == "Key 'l' not found in global inputs for DAG 'flow'"));
    append_global_value(&mut c, "flow", "list", number("1"));
    append_global_value(&mut c, "flow", "list", number("2"));
    let list = c.get_global_value("flow", "list").unwrap();
    let items = list.as_array().unwrap();
    assert_eq!(items.len(), 2);
    assert!(is_number(&items[0], "1"));
    assert!(is_number(&items[1], "2"));
    assert!(c.get_global_value("other", "list").is_none());
}

#[test]
fn saved_cache_is_loaded_again() {
    let mut c = Cache::new();
    insert_value(&mut c, "a", "x", number("1"));
    insert_value(&mut c, "a", "y", number("2"));
    insert_value(&mut c, "b", "x", number("3"));
    let rows = c.to_rows();
    assert_eq!(rows.len(), 3);
    let d = Cache::from_rows(rows);
    assert!(is_number(d.get_value("a", "y").unwrap(), "2"));
    assert!(is_number(d.get_value("b", "x").unwrap(), "3"));
    let e = Cache::from_entries(c.entries());
    assert_eq!(e.len(), 2);
    assert!(is_number(e.get_value("a", "x").unwrap(), "1"));
}

#[test]
fn counts_are_whole_numbers() {
    assert_eq!(as_count(&number("12")), Some(12));
    assert_eq!(as_count(&number("-1")), None);
    assert_eq!(as_count(&string("12")), None);
}

#[test]
fn ids_carry_the_time() {
    assert_eq!(node_id_at("work", 1_700_000_123_456), "work_123456");
    assert_eq!(cache_ref_at("a", 1_700_000_123_456), "cache_a_1700000123456");
    assert!(generate_node_id("work").starts_with("work_"));
    assert!(generate_cache_ref("a").starts_with("cache_a_"));
    assert!(generate_cache_ref("a").len() > "cache_a_".len() + 10);
}

#[test]
fn branches_change_their_state() {
    let mut b = BranchRegistry::new();
    assert!(b.get_status("x").is_none());
    b.register_branch("x".to_string());
    assert!(b.is_running("x"));
    b.pause_branch_at("x", Some("wait".to_string()), 10);
    assert!(b.is_paused("x"));
    let s = b.get_state("x").unwrap();
    assert_eq!(s.reason.as_deref(), Some("wait"));
    assert_eq!(s.paused_at, Some(10));
    b.resume_branch_at("x", 20);
    assert!(b.is_running("x"));
    assert_eq!(b.get_state("x").unwrap().resumed_at, Some(20));
    b.cancel_branch("x", None);
    assert!(b.is_cancelled("x"));
    b.register_branch("y".to_string());
    b.complete_branch("y");
    assert!(matches!(b.get_status("y"), Some(BranchStatus::Completed)));
    b.register_branch("z".to_string());
    assert_eq!(b.list_branches().len(), 3);
    b.cleanup_finished();
    let left = b.list_branches();
    assert_eq!(left.len(), 1);
    assert_eq!(left[0].0, "z");
}

#[test]
fn branch_is_paused_at_the_present_time() {
    let mut b = BranchRegistry::new();
    b.register_branch("x".to_string());
    b.pause_branch("x", None);
    assert!(b.get_state("x").unwrap().paused_at.unwrap() > 1_600_000_000);
    b.resume_branch("x");
    assert!(b.get_state("x").unwrap().resumed_at.unwrap() > 1_600_000_000);
    assert!(matches!(BranchState::new().status, BranchStatus::Running));
    assert!(matches!(BranchState::paused(None).status, BranchStatus::Paused));
    assert!(matches!(BranchState::cancelled(None).status, BranchStatus::Cancelled));
}

#[test]
fn events_are_numbered_and_buffered() {
    let mut counter: u64 = u64::MAX;
    assert_eq!(next_sequence(&mut counter), u64::MAX);
    assert_eq!(next_sequence(&mut counter), 0);
    let numbers: Vec<u64> = (0..4).map(|_| next_sequence(&mut counter)).collect();
    assert_eq!(numbers, vec![1, 2, 3, 4]);
    assert!(now_ms() > 1_600_000_000_000);
    assert_eq!(epoch_millis(1_700_000_000_123), 1_700_000_000_123);
    assert_eq!(epoch_millis(-1), 0);
    let e = branch_event(3, 99, "x", "paused", &Some("wait".to_string()));
    assert_eq!(e.version, ENVELOPE_VERSION);
    assert_eq!(e.sequence, 3);
    assert_eq!(e.run_id, "x");
    assert_eq!(e.timestamp, 99);
    assert!(matches!(&e.event, RuntimeEvent::BranchStateUpdated { status, .. } if status.as_str() == "paused"));
    let mut sink = BufferingEventSink::new();
    sink.emit(e);
    assert_eq!(sink.get_events().len(), 1);
    sink.clear();
    assert!(sink.get_events().is_empty());
}

#[test]
fn plan_names_its_nodes() {
    let mut p = Plan::new();
    assert!(p.is_empty());
    assert_eq!(p.add_node(NodeSpec::new("work")), "work_1");
    assert_eq!(p.add_node(NodeSpec::new("work").with_id("mine").with_dep("work_1").with_timeout(5).with_retries(2)), "mine");
    let t = p.add_tool("mine", "search", Value::Null, "run");
    assert_eq!(t, "tool_search_2");
    assert_eq!(p.get_node_id("tool_search").unwrap(), &t);
    let k = p.add_continuation(&vec![t.clone()], Value::Null);
    assert_eq!(k, "continuation_3");
    assert_eq!(p.add_next_llm(&k, Value::Null), "llm_4");
    assert_eq!(p.len(), 5);
    assert_eq!(p.nodes[2].action, "tool_invoke_node");
    assert_eq!(p.nodes[2].timeout, Some(30));
    assert_eq!(p.nodes[2].try_count, Some(2));
    assert_eq!(p.nodes[3].action, "continuation_node");
    assert_eq!(p.nodes[4].deps, vec!["continuation_3"]);
    assert!(p.get_node_id("search").is_none());
    p.clear();
    assert_eq!(p.len(), 0);
}

#[test]
fn answer_of_a_model_becomes_a_plan() {
    let call = object(vec![("arguments".to_string(), Value::Null), ("name".to_string(), string("search"))]);
    let odd = object(vec![("arguments".to_string(), Value::Null)]);
    let output = object(vec![("tool_calls".to_string(), Value::Array(vec![call, odd]))]);
    let p = plan_from_llm_output("run", "llm_0", &output).unwrap();
    assert_eq!(p.len(), 3);
    assert_eq!(p.nodes[0].id.as_deref(), Some("tool_search_1"));
    assert_eq!(p.nodes[0].deps, vec!["llm_0"]);
    assert_eq!(p.nodes[1].deps, vec!["tool_search_1"]);
    assert!(is_number(p.nodes[1].inputs.get("tool_count").unwrap(), "1"));
    assert_eq!(p.nodes[2].action, "provider_llm_node");
    assert!(plan_from_llm_output("run", "llm_0", &object(Vec::new())).is_none());
    assert!(plan_from_llm_output("run", "llm_0", &object(vec![("tool_calls".to_string(), Value::Array(Vec::new()))])).is_none());
}

#[test]
fn nodes_are_added_to_a_workflow() {
    let mut e = loaded();
    assert!(e.add_node("flow", "c", "work", &vec!["b".to_string()]).is_ok());
    assert!(e.node_exists("flow", "c"));
    assert_eq!(e.compute_levels("flow").ok().unwrap().len(), 3);
    let refused = |r: Result<(), DagError>| r.err().unwrap().message();
    assert_eq!(refused(e.add_node("flow", "d", "other", &Vec::new())), "Action not registered: other");
    assert_eq!(refused(e.add_node("gone", "d", "work", &Vec::new())), "Node not found: DAG not found: gone");
    assert_eq!(refused(e.add_node("flow", "c", "work", &Vec::new())), "Node already exists: c");
    assert_eq!(refused(e.add_node("flow", "d", "work", &vec!["z".to_string()])), "Dependency not found: z");
    assert_eq!(refused(e.require_dep("flow", "z")), "Dependency not found: z");
    assert!(e.require_dep("flow", "a").is_ok());
    assert!(!e.node_exists("flow", "d"));
    assert!(matches!(e.compute_levels("gone"), Err(DagError::DagNotFound(n)) if n == "gone"));
    assert_eq!(e.graphs.get("flow").unwrap().nodes.len(), 3);
    assert_eq!(e.graphs.get("flow").unwrap().nodes[2].timeout, 3600);
}

#[test]
fn several_nodes_are_added_at_once() {
    let mut e = loaded();
    let specs = vec![NodeSpec::new("work").with_dep("b"), NodeSpec::new("work").with_id("last").with_dep("work_0")];
    assert_eq!(e.add_nodes_atomic("flow", &specs).ok().unwrap(), vec!["work_0", "last"]);
    assert!(e.node_exists("flow", "last"));
    let specs = vec![NodeSpec::new("work").with_id("x"), NodeSpec::new("other").with_id("y")];
    assert_eq!(e.add_nodes_atomic("flow", &specs).err().unwrap().message(), "Action not registered: other");
    assert!(!e.node_exists("flow", "x"));
    assert_eq!(e.gen_node_id("work"), "work_1");
}

#[test]
fn definitions_are_listed() {
    let mut e = loaded();
    e.load_graph(graph("second", &["weekly"], vec![node("s", &[])])).unwrap();
    assert_eq!(e.list_dags().len(), 2);
    assert_eq!(e.list_dag_filtered_tag("night"), vec![("flow".to_string(), "about flow".to_string())]);
    assert_eq!(e.list_dag_multiple_tags(&vec!["etl".to_string(), "nightly".to_string()]).len(), 1);
    assert!(e.list_dag_multiple_tags(&vec!["etl".to_string(), "weekly".to_string()]).is_empty());
    assert_eq!(e.list_dags_metadata()[1].2, "me");
    assert!(e.prepare_static("flow").is_ok());
    assert_eq!(e.prepare_static("gone").err().unwrap().message(), "Node not found: Graph 'gone' not found");
}

#[test]
fn definition_is_checked_when_it_is_loaded() {
    let mut e = executor();
    let mut g = graph("flow", &[], vec![node("a", &["z"])]);
    assert!(e.load_graph(graph("flow", &[], vec![node("a", &["z"])])).is_err());
    let round = graph("flow", &[], vec![node("a", &["b"]), node("b", &["a"])]);
    assert_eq!(e.load_graph(round).unwrap_err(), "The graph is not a DAG as it contains cycles.");
    g.nodes = vec![node("a", &[])];
    g.config = Some(DagConfig { timeout_seconds: Some(0), ..DagConfig::default() });
    assert_eq!(e.load_graph(g).unwrap_err(), "timeout_seconds must be greater than 0");
    assert!(e.list_dags().is_empty());
    e.load_graph(graph("empty", &[], Vec::new())).unwrap();
    assert_eq!(e.prepare_static("empty").err().unwrap().message(), "Invalid graph: Graph 'empty' contains no nodes");
}

#[test]
fn agent_starts_with_a_supervisor() {
    let mut e = executor();
    assert_eq!(e.prepare_agent("task").err().unwrap().message(), "Action not found: supervisor_step");
    e.function_registry.register("supervisor_step".to_string(), 3);
    assert!(e.prepare_agent("task").is_ok());
    assert!(e.node_exists("task", "supervisor_start"));
    assert_eq!(e.graphs.get("task").unwrap().description, "Agent-driven DAG for task: task");
    e.prebuilt_dags.remove("task");
    assert_eq!(e.prepare_agent("task").err().unwrap().message(), "Node not found: Agent DAG 'task' not found");
}

#[test]
fn human_check_is_added_on_demand() {
    let mut e = loaded();
    assert!(!e.stop());
    assert!(e.stopped);
    assert!(e.conclude("flow", false).is_ok());
    assert_eq!(e.graphs.get("flow").unwrap().nodes.len(), 2);
    assert!(e.conclude("flow", true).is_ok());
    let added = &e.graphs.get("flow").unwrap().nodes[2];
    assert!(added.id.starts_with("human_check_"));
    assert_eq!(added.action, "human_interrupt");
    assert!(e.add_human_check("flow", "x").is_ok());
    assert!(e.node_exists("flow", "human_check_x"));
    assert!(e.stop());
}

#[test]
fn paused_workflow_is_resumed() {
    let mut e = loaded();
    e.paused = true;
    assert_eq!(e.resume_from_pause("flow", false).err().unwrap().message(), "Invalid state: DAG flow is not in paused state");
    assert!(e.paused);
    assert!(e.resume_from_pause("flow", true).is_ok());
    assert!(!e.paused);
}

#[test]
fn branch_events_go_to_those_who_listen() {
    let mut e = loaded();
    let mut numbers: u64 = 0;
    assert!(e.pause_branch_at("x", None, 1, 2, &mut numbers).is_none());
    e.has_event_sink = true;
    let ev = e.resume_branch_at("x", 3, 4, &mut numbers).unwrap();
    assert_eq!(ev.sequence, 0);
    assert_eq!(ev.timestamp, 4);
    let ev = e.cancel_branch_at("x", Some("why".to_string()), 5, &mut numbers).unwrap();
    assert_eq!(ev.sequence, 1);
    assert!(matches!(&ev.event, RuntimeEvent::BranchStateUpdated { status, .. } if status.as_str() == "cancelled"));
    assert!(e.pause_branch("y", None, &mut numbers).is_some());
    assert!(e.resume_branch("y", &mut numbers).is_some());
    assert!(e.cancel_branch("y", None, &mut numbers).is_some());
    assert_eq!(numbers, 5);
}

#[test]
fn inputs_of_single_nodes_are_kept() {
    let mut e = loaded();
    assert!(matches!(e.get_node_inputs_json("flow", "a").ok().unwrap(), Value::Object(m) if m.is_empty()));
    assert!(e.set_node_inputs_json("flow", "a", number("1")).is_ok());
    assert!(e.set_node_inputs_json("flow", "a", number("2")).is_ok());
    assert!(e.set_node_inputs_json("other", "a", number("3")).is_ok());
    assert!(is_number(&e.get_node_inputs_json("flow", "a").ok().unwrap(), "2"));
}

#[test]
fn names_are_compared_in_lower_case() {
    assert_eq!(normalize_dag_name("MyFlow"), "myflow");
    assert_eq!(normalize_dag_name("ÄB"), "äb");
}

#[test]
fn function_gets_a_stand_in_node() {
    let mut c = Cache::new();
    let inputs = object(vec![("x".to_string(), number("1"))]);
    store_inputs(&mut c, "n", &inputs);
    assert!(is_number(c.get_value("n", "x").unwrap(), "1"));
    let known = node("n", &["m"]);
    assert_eq!(function_node(Some(&known), "n", "work", &inputs).dependencies, vec!["m"]);
    let made = function_node(None, "n", "work", &inputs);
    assert_eq!(made.inputs[0].reference, "n.x");
    assert_eq!(made.outputs[0].name, "output");
    assert!(bare_node("n", "work").inputs.is_empty());
    let f = FunctionAction::new("work".to_string(), 7u64);
    assert_eq!(f.name, "work");
    assert!(FunctionAction::<u64>::output().success);
    let w = LegacyNodeActionWrapper::new("old");
    assert_eq!(w.name(), "old");
    let (n, o) = w.execute(&mut c, "k", &inputs);
    assert_eq!(n.id, "k");
    assert!(o.success);
    assert!(is_number(c.get_value("k", "x").unwrap(), "1"));
}

#[test]
fn stored_bytes_come_back() {
    let bytes = vec![7u8; 500];
    for what in [Stored::ExecutionTree, Stored::Snapshot, Stored::ExecutionState] {
        let packed = pack(what, &bytes).unwrap();
        assert!(packed != bytes);
        assert_eq!(unpack(&packed).unwrap(), bytes);
    }
    assert!(unpack(&[1, 2, 3]).is_err());
    assert_eq!(database_url("sqlite:x.db"), "sqlite:x.db");
    assert_ne!(database_url("x.db"), "x.db");
}

fn tree() -> ExecutionTree {
    let mut t = ExecutionTree::new();
    let at = Timestamp { secs: 3661, nanos: 0 };
    record_execution_snapshot(&mut t, &node("a", &[]), &outcome("a", true), "ref_a", at);
    record_execution_snapshot(&mut t, &node("b", &["a", "gone"]), &outcome("b", false), "ref_b", at);
    t
}

#[test]
fn tree_follows_the_execution() {
    let mut t = tree();
    assert_eq!(t.nodes.len(), 2);
    assert_eq!(t.graph.edge_list(), vec![(0, 1)]);
    assert_eq!(t.labels[0].label, "executed_after");
    assert_eq!(t.find("b"), Some(1));
    assert_eq!(t.find("z"), None);
    let snap = NodeSnapshot {
        node_id: "c".to_string(),
        outcome: outcome("c", true),
        cache_ref: "r".to_string(),
        timestamp: Timestamp { secs: 0, nanos: 0 },
        channel: None,
        message_id: None,
    };
    assert_eq!(update_execution_tree(&mut t, snap, Some("b".to_string()), Some("via_x".to_string())), 2);
    assert_eq!(t.graph.edge_list().len(), 2);
    assert_eq!(t.labels[1].label, "via_x");
    assert_eq!(t.labels[1].parent, "b");
}

#[test]
fn saved_tree_is_the_same_tree() {
    let t = tree();
    let s = SerializableExecutionTree::from_execution_tree(&t);
    assert_eq!(s.nodes.len(), 2);
    assert_eq!(s.edges.len(), 1);
    let back = s.to_execution_tree();
    assert_eq!(back.nodes.len(), 2);
    assert_eq!(back.nodes[1].node_id, "b");
    assert_eq!(back.nodes[1].cache_ref, "ref_b");
    assert_eq!(back.graph.edge_list(), vec![(0, 1)]);
    assert_eq!(back.labels[0].parent, "a");
}

#[test]
fn workflow_of_a_node_is_found() {
    let e = loaded();
    assert_eq!(workflow_of(&e.graphs, "b"), Some(0));
    assert_eq!(workflow_of(&e.graphs, "z"), None);
    assert_eq!(node_position(e.graphs.get("flow").unwrap(), "b"), Some(1));
}

#[test]
fn values_are_shown_on_one_line() {
    assert_eq!(flatten_value("\"text\""), "text");
    let long = "x".repeat(60);
    assert_eq!(flatten_value(&long), format!("{}...", "x".repeat(47)));
    let fits = "x".repeat(50);
    assert_eq!(flatten_value(&fits), fits);
    assert_eq!(time_of_day(&Timestamp { secs: 3661, nanos: 0 }), "01:01:01");
    assert_eq!(time_of_day(&Timestamp { secs: -1, nanos: 0 }), "23:59:59");
}

#[test]
fn drawing_has_nodes_and_edges() {
    let mut values: StringMap<Vec<(String, String)>> = StringMap::new();
    values.insert(
        "a".to_string(),
        vec![("input_x".to_string(), "1".to_string()), ("output_y".to_string(), "2".to_string())],
    );
    let text = serialize_tree_to_dot(&tree(), &loaded().graphs, &values);
    assert!(text.starts_with("digraph ExecutionFlow {\n"));
    assert!(text.contains("<B>Inputs</B>"));
    assert!(text.contains("<I>output_y</I>: 2"));
    assert!(text.contains("Action: work"));
    assert!(text.contains("Time: 01:01:01"));
    assert!(text.contains("✓ Success"));
    assert!(text.contains("✗ Failed"));
    assert!(text.contains("\"a\" -> \"b\" [label=\"executed_after\"];\n"));
    assert!(text.ends_with("}\n"));
}
