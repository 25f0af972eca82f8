//! Coordination of workflows.

use dagger::coord::action::{EchoAction, NodeCtx, NodeOutput};
use dagger::coord::coordinator::{
    apply_command, get_ready_nodes, is_complete, prepare_worker, resolve_input, resolve_inputs, worker_event,
    Coordinator, WorkerResult,
};
use dagger::coord::hooks::{gather, HookContext, LoggingHook};
use dagger::coord::legacy_bridge::{convert_legacy_registry, LegacyActionWrapper};
use dagger::coord::registry::ActionRegistry;
use dagger::coord::types::{ExecutionEvent, ExecutorCommand, NodeOutcome, NodeRef, RuntimeEventV2};
use dagger::dag_flow::cache::Cache;
use dagger::dag_flow::config::DagConfig;
use dagger::dag_flow::executor::DagExecutor;
use dagger::dag_flow::node::{Graph, IField, Node};
use dagger::dag_flow::planning::NodeSpec;
use dagger::string_map::{StringMap, StringSet};
use dagger::value::{object, string, Value};

fn node(id: &str, deps: &[&str]) -> Node {
    Node {
        id: id.to_string(),
        dependencies: deps.iter().map(|s| s.to_string()).collect(),
        inputs: vec![IField { name: "in".to_string(), description: None, reference: "inputs.x".to_string() }],
        outputs: Vec::new(),
        action: "echo".to_string(),
        failure: String::new(),
        onfailure: true,
        description: String::new(),
        timeout: 30,
        try_count: 3,
        instructions: None,
    }
}

fn executor() -> DagExecutor<u64> {
    let mut r = ActionRegistry::new();
    r.register("echo".to_string(), 1);
    let mut e = DagExecutor::new(None, r);
    e.load_graph(
        Graph {
            nodes: vec![node("a", &[]), node("b", &["a"]), node("c", &["a"])],
            name: "flow".to_string(),
            description: String::new(),
            instructions: None,
            tags: Vec::new(),
            author: String::new(),
            version: String::new(),
            signature: String::new(),
            config: None,
        },
    ).unwrap();
    e
}

fn completed(id: &str) -> ExecutionEvent {
    ExecutionEvent::NodeCompleted {
        node: NodeRef { dag_name: "flow".to_string(), node_id: id.to_string() },
        outcome: NodeOutcome::Success { outputs: None },
    }
}

#[test]
fn context_hands_out_inputs() {
    let ctx: NodeCtx<u64> = NodeCtx::new("flow", "a", object(vec![("x".to_string(), string("t"))]));
    assert_eq!(ctx.get_input("x").unwrap().as_str(), Some("t"));
    assert_eq!(ctx.get_input("y").err().unwrap(), "Input 'y' not found");
    assert!(ctx.get_input_opt("y").is_none());
    let ctx = ctx.with_app_data(7);
    assert_eq!(ctx.app_data, Some(7));
    let out = EchoAction.execute(&ctx);
    assert_eq!(EchoAction.name(), "echo");
    assert!(out.success);
    assert_eq!(out.outputs.unwrap().get("x").unwrap().as_str(), Some("t"));
}

#[test]
fn outputs_say_whether_they_succeeded() {
    assert!(NodeOutput::success(Value::Null).outputs.is_some());
    assert!(NodeOutput::success_empty().outputs.is_none());
    assert!(NodeOutput::success_empty().success);
    assert!(!NodeOutput::failure().success);
    assert!(NodeOutput::failure().with_metadata(Value::Null).metadata.is_some());
}

#[test]
fn registry_finds_actions() {
    let mut r: ActionRegistry<u64> = ActionRegistry::default();
    assert!(r.get("x").is_none());
    r.register("x".to_string(), 1);
    r.register("x".to_string(), 2);
    assert_eq!(r.get("x"), Some(&2));
    assert!(r.contains("x"));
    assert_eq!(r.list(), vec!["x"]);
}

#[test]
fn ready_nodes_have_completed_dependencies() {
    let e = executor();
    let mut done = StringSet::new();
    assert_eq!(get_ready_nodes(&e, "flow", &done).unwrap(), vec!["a"]);
    done.insert("a".to_string());
    assert_eq!(get_ready_nodes(&e, "flow", &done).unwrap(), vec!["b", "c"]);
    assert!(!is_complete(&e, "flow", &done).unwrap());
    done.insert("b".to_string());
    done.insert("c".to_string());
    assert!(is_complete(&e, "flow", &done).unwrap());
    assert_eq!(get_ready_nodes(&e, "gone", &done).err().unwrap(), "DAG not found: gone");
    assert_eq!(is_complete(&e, "gone", &done).err().unwrap(), "DAG not found: gone");
}

#[test]
fn inputs_are_resolved() {
    let mut c = Cache::new();
    c.insert_value("inputs", "x", string("given"));
    c.insert_value("a", "y", string("made"));
    assert_eq!(resolve_input(&c, "inputs.x").as_str(), Some("given"));
    assert_eq!(resolve_input(&c, "a.y").as_str(), Some("made"));
    assert!(resolve_input(&c, "z.y").is_null());
    let v = resolve_inputs(&c, &node("a", &[]).inputs);
    assert_eq!(v.get("in").unwrap().as_str(), Some("given"));
}

#[test]
fn worker_gets_what_it_needs() {
    let mut e = executor();
    let mut c = Cache::new();
    c.insert_value("inputs", "x", string("given"));
    let l = prepare_worker(&e, "flow", "a", &c).unwrap();
    assert_eq!(l.node.node_id, "a");
    assert_eq!(l.action, "echo");
    assert_eq!(l.timeout, 30);
    assert_eq!(l.inputs.get("in").unwrap().as_str(), Some("given"));
    assert_eq!(prepare_worker(&e, "gone", "a", &c).err().unwrap(), "DAG not found: gone");
    assert_eq!(prepare_worker(&e, "flow", "z", &c).err().unwrap(), "Node not found: z");
    e.function_registry = ActionRegistry::new();
    assert_eq!(prepare_worker(&e, "flow", "a", &c).err().unwrap(), "Action not found: echo");
}

#[test]
fn worker_results_become_events() {
    let at = || NodeRef { dag_name: "flow".to_string(), node_id: "a".to_string() };
    assert!(matches!(
        worker_event(at(), WorkerResult::Returned(NodeOutput::success_empty())),
        ExecutionEvent::NodeCompleted { outcome: NodeOutcome::Success { outputs: None }, .. }
    ));
    assert!(matches!(
        worker_event(at(), WorkerResult::Failed("x".to_string())),
        ExecutionEvent::NodeFailed { error, .. } if error == "x"
    ));
    assert!(matches!(
        worker_event(at(), WorkerResult::TimedOut("30s".to_string())),
        ExecutionEvent::NodeFailed { error, .. } if error == "Worker task error: 30s"
    ));
}

#[test]
fn coordinator_launches_each_node_once() {
    let e = executor();
    let cache = Cache::new();
    let mut k = Coordinator::new();
    assert_eq!(k.to_schedule(&e, "flow").unwrap(), vec!["a"]);
    k.launch(&e, "flow", "a", &cache).unwrap();
    assert!(k.to_schedule(&e, "flow").unwrap().is_empty());
    assert!(!k.is_over(&e, "flow").unwrap());
    assert!(k.note(&completed("a")));
    assert_eq!(k.to_schedule(&e, "flow").unwrap(), vec!["b", "c"]);
    for id in ["b", "c"] {
        k.launch(&e, "flow", id, &cache).unwrap();
    }
    assert!(k.note(&completed("b")));
    let failed = ExecutionEvent::NodeFailed {
        node: NodeRef { dag_name: "flow".to_string(), node_id: "c".to_string() },
        error: "x".to_string(),
    };
    assert!(!k.note(&failed));
    assert!(k.in_flight.is_empty());
    assert_eq!(Coordinator::max_parallel(&DagConfig::default()), 3);
}

#[test]
fn commands_change_the_workflow() {
    let mut e = executor();
    let mut numbers: u64 = 7;
    e.has_event_sink = true;
    let add = |dag: &str| ExecutorCommand::AddNode {
        dag_name: dag.to_string(),
        spec: NodeSpec::new("echo").with_id("d").with_dep("a"),
    };
    assert_eq!(apply_command(&mut e, "flow", add("flow"), &mut numbers).ok().unwrap().added, vec!["d"]);
    assert!(e.node_exists("flow", "d"));
    assert_eq!(apply_command(&mut e, "flow", add("other"), &mut numbers).err().unwrap(), "Command for wrong DAG: other vs flow");
    let many = ExecutorCommand::AddNodes {
        dag_name: "flow".to_string(),
        specs: vec![NodeSpec::new("echo").with_id("e"), NodeSpec::new("echo").with_id("f")],
    };
    assert_eq!(apply_command(&mut e, "flow", many, &mut numbers).ok().unwrap().added, vec!["e", "f"]);
    e.branches.register_branch("x".to_string());
    let pause = ExecutorCommand::PauseBranch { branch_id: "x".to_string(), reason: None };
    let event = apply_command(&mut e, "flow", pause, &mut numbers).ok().unwrap().event.unwrap();
    assert_eq!((event.sequence, event.run_id.as_str(), numbers), (7, "x", 8));
    assert!(e.branches.is_paused("x"));
    let resume = ExecutorCommand::ResumeBranch { branch_id: "x".to_string() };
    apply_command(&mut e, "flow", resume, &mut numbers).ok().unwrap();
    assert!(e.branches.is_running("x"));
    apply_command(&mut e, "flow", ExecutorCommand::CancelBranch { branch_id: "x".to_string() }, &mut numbers).ok().unwrap();
    assert!(e.branches.is_cancelled("x"));
    let set = ExecutorCommand::SetNodeInputs {
        dag_name: "flow".to_string(),
        node_id: "a".to_string(),
        inputs: object(vec![("k".to_string(), string("v"))]),
    };
    assert!(apply_command(&mut e, "flow", set, &mut numbers).is_ok());
    let event = RuntimeEventV2 {
        version: 2,
        sequence: 0,
        run_id: "r".to_string(),
        timestamp: 0,
        event_type: "t".to_string(),
        data: Value::Null,
    };
    assert!(apply_command(&mut e, "flow", ExecutorCommand::EmitEvent { event }, &mut numbers).ok().unwrap().added.is_empty());
}

#[test]
fn hooks_answer_in_order() {
    let cancel = |id: &str| ExecutorCommand::CancelBranch { branch_id: id.to_string() };
    let all = gather(vec![vec![cancel("x")], Vec::new(), vec![cancel("y"), cancel("z")]]);
    assert_eq!(all.len(), 3);
    assert!(matches!(&all[1], ExecutorCommand::CancelBranch { branch_id } if branch_id.as_str() == "y"));
    assert!(LoggingHook.handle(&completed("a")).is_empty());
    let c: HookContext<u64> = HookContext::new("run", "flow");
    assert_eq!(c.run_id, "run");
    assert_eq!(c.with_app_data(3).app_data, Some(3));
}

#[test]
fn legacy_actions_are_wrapped() {
    let mut old: StringMap<u64> = StringMap::new();
    old.insert("echo".to_string(), 5);
    let r = convert_legacy_registry(old);
    let w = r.get("echo").unwrap();
    assert_eq!(w.name, "echo");
    assert_eq!(w.legacy_action, 5);
    let ctx: NodeCtx<u64> = NodeCtx::new("flow", "a", object(vec![("x".to_string(), string("t"))]));
    let mut c = Cache::new();
    let out = LegacyActionWrapper::new("echo".to_string(), 5u64).execute(&ctx, &mut c);
    assert!(out.success);
    assert_eq!(out.outputs.unwrap().get("x").unwrap().as_str(), Some("t"));
    assert_eq!(c.get_value("a", "x").unwrap().as_str(), Some("t"));
}

#[test]
fn nodes_are_added_all_or_none() {
    let mut e = executor();
    let mut numbers: u64 = 0;
    let before = e.graphs.get("flow").unwrap().nodes.len();
    let refused = [
        (NodeSpec::new("gone").with_id("y"), "Action not registered: gone"),
        (NodeSpec::new("echo").with_id("a"), "Node already exists: a"),
        (NodeSpec::new("echo").with_id("y").with_dep("z"), "Dependency not found: z"),
    ];
    for (spec, text) in refused {
        let many = ExecutorCommand::AddNodes {
            dag_name: "flow".to_string(),
            specs: vec![NodeSpec::new("echo").with_id("x"), NodeSpec::new("echo"), spec],
        };
        assert_eq!(apply_command(&mut e, "flow", many, &mut numbers).err().unwrap(), text);
        assert!(!e.node_exists("flow", "x"));
        assert_eq!(e.graphs.get("flow").unwrap().nodes.len(), before);
    }
    assert_eq!(e.gen_node_id("echo"), "echo_0");
    assert_eq!(numbers, 0);
}

#[test]
fn worker_is_given_what_was_set() {
    let mut e = executor();
    let cache = Cache::new();
    let mut numbers: u64 = 0;
    let spec = NodeSpec::new("echo")
        .with_id("n")
        .with_inputs(object(vec![("k".to_string(), string("v"))]))
        .with_timeout(5)
        .with_retries(300);
    let add = ExecutorCommand::AddNode { dag_name: "flow".to_string(), spec };
    apply_command(&mut e, "flow", add, &mut numbers).ok().unwrap();
    let l = prepare_worker(&e, "flow", "n", &cache).unwrap();
    assert_eq!(l.timeout, 5);
    assert_eq!(l.inputs.get("k").unwrap().as_str(), Some("v"));
    let d = e.prebuilt_dags.get("flow").unwrap();
    assert_eq!(d.nodes[*d.indices.get("n").unwrap()].try_count, 255);
    e.set_node_inputs_json("flow", "n", string("all")).ok().unwrap();
    assert_eq!(prepare_worker(&e, "flow", "n", &cache).unwrap().inputs.as_str(), Some("all"));
    assert_eq!(e.get_node_inputs_json("flow", "n").ok().unwrap().as_str(), Some("all"));
    assert!(matches!(e.get_node_inputs_json("flow", "a").ok().unwrap(), Value::Object(m) if m.is_empty()));
}
