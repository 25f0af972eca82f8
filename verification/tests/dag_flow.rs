use dagger::coord::registry::ActionRegistry;
use dagger::dag_flow::attempts::{
    begin_attempts, effective_timeout, step_completed, step_failed, step_started, AttemptResult, Attempts, Begun,
};
use dagger::dag_flow::cache::Cache;
use dagger::dag_flow::config::{
    calculate_retry_delay, DagConfig, ExecutionMode, HumanTimeoutAction, OnFailure, RetryStrategy, WorkflowSpec,
};
use dagger::dag_flow::dag::{build_dag_internal, validate_dag_structure, validate_node_actions, Dag};
use dagger::dag_flow::node::{create_execution_report, DagError, Graph, IField, Node, NodeExecutionOutcome};
use dagger::dag_flow::run::{check_limits, runs_in_parallel, Completion, Round, Run};
use dagger::dag_flow::schedule::{all_done, find_ready_nodes};
use dagger::double::Double;
use dagger::graph::Digraph;
use dagger::string_map::StringSet;
use dagger::value::Value;

fn node(id: &str, deps: &[&str]) -> Node {
    Node {
        id: id.to_string(),
        dependencies: deps.iter().map(|s| s.to_string()).collect(),
        inputs: Vec::new(),
        outputs: Vec::new(),
        action: "work".to_string(),
        failure: String::new(),
        onfailure: true,
        description: String::new(),
        timeout: 30,
        try_count: 3,
        instructions: None,
    }
}

fn graph(nodes: Vec<Node>) -> Graph {
    Graph {
        nodes,
        name: "flow".to_string(),
        description: "a flow".to_string(),
        instructions: None,
        tags: vec!["nightly".to_string()],
        author: "me".to_string(),
        version: "1".to_string(),
        signature: "s".to_string(),
        config: None,
    }
}

fn registry() -> ActionRegistry<u64> {
    let mut r = ActionRegistry::new();
    r.register("work".to_string(), 1);
    r.register("supervisor_step".to_string(), 2);
    r
}

fn diamond() -> Dag {
    let g = graph(vec![node("d", &["b", "c"]), node("a", &[]), node("b", &["a"]), node("c", &["a"])]);
    build_dag_internal(&registry(), &g).unwrap()
}

fn outcome(id: &str, success: bool) -> NodeExecutionOutcome {
    NodeExecutionOutcome { node_id: id.to_string(), success, retry_messages: Vec::new(), final_error: None }
}

fn set(items: &[&str]) -> StringSet {
    let mut s = StringSet::new();
    for i in items {
        s.insert(i.to_string());
    }
    s
}

fn begun(n: &Node) -> Attempts {
    match begin_attempts(n, true) {
        Begun::Run(a) => a,
        Begun::Done(_) => panic!("nothing to attempt"),
    }
}

#[test]
fn default_configuration_is_valid() {
    let c = DagConfig::default();
    assert_eq!(c.max_attempts, Some(3));
    assert!(matches!(c.on_failure, OnFailure::Pause));
    assert_eq!(c.timeout_seconds, Some(3600));
    assert_eq!(c.max_iterations, Some(50));
    assert_eq!(c.review_frequency, Some(5));
    assert!(c.enable_parallel_execution);
    assert_eq!(c.max_parallel_nodes, 3);
    assert!(!c.enable_incremental_cache);
    assert_eq!(c.cache_snapshot_interval, 300);
    assert!(c.validate().is_ok());
}

#[test]
fn configuration_out_of_range_is_refused() {
    let base = DagConfig::default();
    let refused = |c: DagConfig, why: &str| assert_eq!(c.validate().unwrap_err(), why);
    refused(DagConfig { max_attempts: Some(0), ..base }, "max_attempts must be greater than 0");
    refused(DagConfig { timeout_seconds: Some(0), ..base }, "timeout_seconds must be greater than 0");
    refused(DagConfig { timeout_seconds: Some(86_401), ..base }, "timeout_seconds cannot exceed 24 hours");
    refused(DagConfig { human_wait_minutes: Some(1441), ..base }, "human_wait_minutes cannot exceed 24 hours");
    refused(DagConfig { max_iterations: Some(0), ..base }, "max_iterations must be greater than 0");
    refused(DagConfig { max_iterations: Some(1001), ..base }, "max_iterations cannot exceed 1000");
    refused(DagConfig { review_frequency: Some(0), ..base }, "review_frequency must be greater than 0");
    assert!(DagConfig { timeout_seconds: Some(86_400), max_iterations: Some(1000), ..base }.validate().is_ok());
}

#[test]
fn merged_configuration_prefers_what_is_given() {
    let base = DagConfig::default();
    let over = DagConfig { max_attempts: None, timeout_seconds: Some(60), on_failure: OnFailure::Stop, ..base };
    let m = DagConfig::merge(&base, &over).unwrap();
    assert_eq!(m.max_attempts, Some(3));
    assert_eq!(m.timeout_seconds, Some(60));
    assert!(matches!(m.on_failure, OnFailure::Stop));
    assert!(DagConfig::merge(&base, &DagConfig { timeout_seconds: Some(0), ..base }).is_err());
}

#[test]
fn workflow_says_how_it_is_executed() {
    let (mode, name) = WorkflowSpec::Static { name: "a".to_string() }.into_parts();
    assert!(matches!(mode, ExecutionMode::Static));
    assert_eq!(name, "a");
    let (mode, task) = WorkflowSpec::Agent { task: "t".to_string() }.into_parts();
    assert!(matches!(mode, ExecutionMode::Agent));
    assert_eq!(task, "t");
    assert!(matches!(DagConfig::default().human_timeout_action, HumanTimeoutAction::Pause));
}

#[test]
fn retry_delay_follows_the_strategy() {
    let grows = RetryStrategy::Exponential {
        initial_delay_secs: 2,
        max_delay_secs: 60,
        multiplier: Double::from_bits(2.0f64.to_bits()),
    };
    assert_eq!(calculate_retry_delay(&grows, 8), 8);
    assert_eq!(calculate_retry_delay(&grows, 128), 60);
    assert_eq!(calculate_retry_delay(&RetryStrategy::Linear { delay_secs: 7 }, 128), 7);
    assert_eq!(calculate_retry_delay(&RetryStrategy::Immediate, 128), 0);
}

#[test]
fn attempts_are_counted_and_told() {
    let n = node("a", &[]);
    let mut a = begun(&n);
    let linear = RetryStrategy::Linear { delay_secs: 7 };
    assert_eq!(a.number(&n), 1);
    assert_eq!(a.after_attempt(&n, AttemptResult::Failed("x".to_string()), &linear, 0), Some(7));
    assert_eq!(a.number(&n), 2);
    assert_eq!(a.after_attempt(&n, AttemptResult::TimedOut("30s".to_string()), &linear, 0), Some(7));
    assert_eq!(a.after_attempt(&n, AttemptResult::Failed("y".to_string()), &linear, 0), None);
    assert!(!a.outcome.success);
    assert_eq!(
        a.outcome.retry_messages,
        vec!["Attempt 1 failed: x", "Attempt 2 failed: Timeout after 30s", "Attempt 3 failed: y"],
    );
    assert_eq!(a.outcome.final_error.unwrap(), "Failed after 3 attempts. Last error: y");
}

#[test]
fn attempts_end_with_success() {
    let n = node("a", &[]);
    let mut a = begun(&n);
    assert_eq!(a.handle_attempt(&n, AttemptResult::Failed("x".to_string()), &RetryStrategy::Immediate, 0), Some(0));
    assert_eq!(a.handle_attempt(&n, AttemptResult::Success, &RetryStrategy::Immediate, 0), None);
    assert!(a.outcome.success);
    assert_eq!(a.outcome.retry_messages.len(), 1);
    assert!(a.outcome.final_error.is_none());
}

#[test]
fn last_timeout_is_named() {
    let mut n = node("a", &[]);
    n.onfailure = false;
    let mut a = begun(&n);
    assert_eq!(a.after_attempt(&n, AttemptResult::TimedOut("30s".to_string()), &RetryStrategy::Immediate, 0), None);
    assert_eq!(a.outcome.final_error.unwrap(), "Node 'a' timed out after 1 attempts");
    let mut b = begun(&n);
    assert_eq!(b.handle_attempt(&n, AttemptResult::TimedOut("30s".to_string()), &RetryStrategy::Immediate, 0), None);
    assert_eq!(b.outcome.final_error.unwrap(), "Failed after 1 attempts. Last error: Timeout after 30s");
}

#[test]
fn node_without_action_or_attempts_fails_at_once() {
    let mut n = node("a", &[]);
    match begin_attempts(&n, false) {
        Begun::Done(o) => {
            assert!(!o.success);
            assert_eq!(o.final_error.unwrap(), "Action 'work' not registered for node 'a'");
        },
        Begun::Run(_) => panic!("action is not registered"),
    }
    n.try_count = 0;
    match begin_attempts(&n, true) {
        Begun::Done(o) => assert_eq!(o.final_error.unwrap(), "Node 'a' failed after 0 attempts"),
        Begun::Run(_) => panic!("no attempt is left"),
    }
}

#[test]
fn time_left_bounds_the_timeout() {
    assert_eq!(effective_timeout(30, Some(60), 10_000_000_000), 30_000_000_000);
    assert_eq!(effective_timeout(30, Some(60), 50_000_000_000), 10_000_000_000);
    assert_eq!(effective_timeout(30, Some(60), 90_000_000_000), 0);
}

#[test]
fn step_events_carry_their_data() {
    let n = node("a", &[]);
    let s = step_started(&n, "run", 5);
    assert_eq!(s.event_type, "StepStarted");
    assert_eq!(s.node_id, "a");
    assert_eq!(s.run_id, "run");
    assert_eq!(s.timestamp, 5);
    let c = step_completed(&n, "run", 6, 12, 2);
    assert_eq!(c.event_type, "StepCompleted");
    assert!(matches!(c.data.get("duration_ms"), Some(Value::Number(t)) if t.as_str() == "12"));
    let f = step_failed(&n, "run", 7, "broke", 12, 2);
    assert_eq!(f.event_type, "StepFailed");
    assert_eq!(f.data.get("error").unwrap().as_str(), Some("broke"));
}

#[test]
fn report_lists_failures() {
    let mut bad = outcome("b", false);
    bad.final_error = Some("broke".to_string());
    let r = create_execution_report(vec![outcome("a", true), bad], false, None);
    assert!(!r.overall_success);
    assert_eq!(r.error.unwrap(), "broke");
    let r = create_execution_report(vec![outcome("a", true)], true, None);
    assert!(r.error.is_none());
    let r = create_execution_report(Vec::new(), false, Some("over".to_string()));
    assert_eq!(r.error.unwrap(), "over");
}

#[test]
fn errors_say_what_happened() {
    assert_eq!(DagError::Cancelled.message(), "Cancelled");
    assert_eq!(DagError::NodeNotFound("n".to_string()).message(), "Node not found: n");
}

#[test]
fn definition_with_unknown_parts_is_refused() {
    let e = build_dag_internal(&registry(), &graph(vec![node("a", &["z"])])).err().unwrap();
    assert_eq!(e, "Dependency 'z' for node 'a' not found.");
    let mut n = node("a", &[]);
    n.action = "other".to_string();
    let e = build_dag_internal(&registry(), &graph(vec![n])).err().unwrap();
    assert_eq!(e, "Action 'other' for node 'a' is not registered.");
    assert!(validate_node_actions(&registry(), &vec![node("a", &[])]).is_ok());
    let e = build_dag_internal(&registry(), &graph(vec![node("a", &["b"]), node("b", &["a"])])).err().unwrap();
    assert_eq!(e, "The graph is not a DAG as it contains cycles.");
}

#[test]
fn cycles_are_refused() {
    let mut g = Digraph::new();
    g.add_node();
    g.add_node();
    g.add_edge(0, 1);
    assert!(validate_dag_structure(&g).is_ok());
    g.add_edge(1, 0);
    assert_eq!(validate_dag_structure(&g).unwrap_err(), "The graph is not a DAG as it contains cycles.");
}

#[test]
fn levels_follow_dependencies() {
    let levels = diamond().compute_levels();
    let mut named: Vec<(usize, Vec<String>)> = levels;
    for l in named.iter_mut() {
        l.1.sort();
    }
    named.sort();
    assert_eq!(
        named,
        vec![
            (0, vec!["a".to_string()]),
            (1, vec!["b".to_string(), "c".to_string()]),
            (2, vec!["d".to_string()]),
        ],
    );
}

#[test]
fn ready_nodes_wait_for_their_dependencies() {
    let d = diamond();
    assert_eq!(find_ready_nodes(&d, &set(&[]), &set(&[])), vec![1]);
    assert_eq!(find_ready_nodes(&d, &set(&["a"]), &set(&[])), vec![2, 3]);
    assert_eq!(find_ready_nodes(&d, &set(&["a"]), &set(&["b"])), vec![3]);
    assert_eq!(find_ready_nodes(&d, &set(&["a", "b", "c"]), &set(&[])), vec![0]);
    assert!(all_done(&vec!["a".to_string()], &set(&["a"])));
    assert!(!all_done(&vec!["a".to_string(), "b".to_string()], &set(&["a"])));
}

#[test]
fn parallel_run_comes_to_its_end() {
    let d = diamond();
    let cache = Cache::new();
    let config = DagConfig::default();
    let mut run = Run::new();
    let mut order: Vec<String> = Vec::new();
    loop {
        match run.parallel_round(false, Some(&d), &cache, 0, &config) {
            Round::Launch(ready) => {
                for p in ready {
                    let id = d.nodes[p].id.clone();
                    run.launch(&id);
                    assert!(matches!(run.complete(outcome(&id, true), config.on_failure), Completion::GoOn));
                    order.push(id);
                }
            },
            Round::Finish => break,
            Round::Abort { .. } => panic!("no limit is reached"),
        }
    }
    assert_eq!(order, vec!["a", "b", "c", "d"]);
    let r = run.into_report();
    assert!(r.overall_success);
    assert_eq!(r.node_outcomes.len(), 4);
}

#[test]
fn parallel_round_takes_running_nodes_too() {
    let d = diamond();
    let cache = Cache::new();
    let config = DagConfig::default();
    let mut run = Run::new();
    run.launch("a");
    run.complete(outcome("a", true), config.on_failure);
    run.launch("b");
    match run.parallel_round(false, Some(&d), &cache, 0, &config) {
        Round::Launch(ready) => assert_eq!(ready, vec![2, 3]),
        _ => panic!("two nodes are ready"),
    }
}

#[test]
fn bounded_run_leaves_room() {
    let d = diamond();
    let cache = Cache::new();
    let config = DagConfig::default();
    let mut run = Run::new();
    run.launch("a");
    run.complete(outcome("a", true), config.on_failure);
    match run.bounded_round(false, Some(&d), &cache, 0, &config, 1) {
        Round::Launch(ready) => assert_eq!(ready, vec![2]),
        _ => panic!("two nodes are ready"),
    }
    run.launch("b");
    match run.bounded_round(false, Some(&d), &cache, 0, &config, 1) {
        Round::Launch(ready) => assert!(ready.is_empty()),
        _ => panic!("a node runs"),
    }
    match run.bounded_round(false, Some(&d), &cache, 0, &config, 2) {
        Round::Launch(ready) => assert_eq!(ready, vec![3]),
        _ => panic!("a node is ready"),
    }
}

#[test]
fn sequential_run_keeps_the_order() {
    let d = diamond();
    let cache = Cache::new();
    let config = DagConfig::default();
    let mut run = Run::new();
    match run.sequential_round(false, Some(&d), &cache, 0, &config) {
        Round::Launch(list) => {
            assert_eq!(list.len(), 4);
            assert_eq!(list[0], 1);
            assert_eq!(list[3], 0);
        },
        _ => panic!("nothing ran yet"),
    }
    for id in ["a", "b", "c", "d"] {
        assert!(run.is_pending(id));
        run.launch(id);
        run.complete(outcome(id, true), config.on_failure);
    }
    assert!(matches!(run.sequential_round(false, Some(&d), &cache, 0, &config), Round::Finish));
}

#[test]
fn stopped_or_missing_workflow_finishes() {
    let d = diamond();
    let cache = Cache::new();
    let config = DagConfig::default();
    assert!(matches!(Run::new().parallel_round(true, Some(&d), &cache, 0, &config), Round::Finish));
    assert!(matches!(Run::new().bounded_round(false, None, &cache, 0, &config, 3), Round::Finish));
}

#[test]
fn failure_decides_how_to_go_on() {
    let mut run = Run::new();
    run.launch("a");
    assert!(matches!(run.complete(outcome("a", false), OnFailure::Stop), Completion::Stop));
    run.launch("b");
    assert!(matches!(run.complete(outcome("b", false), OnFailure::Pause), Completion::Pause));
    run.launch("c");
    assert!(matches!(run.complete(outcome("c", false), OnFailure::Continue), Completion::GoOn));
    assert!(!run.overall_success);
    run.collect(outcome("d", true));
    let r = run.into_failure(Some("over".to_string()));
    assert!(!r.overall_success);
    assert_eq!(r.node_outcomes.len(), 4);
    assert_eq!(r.error.unwrap(), "over");
}

#[test]
fn limits_end_a_run() {
    let config = DagConfig::default();
    assert!(check_limits(&config, 49, 3600).is_none());
    assert_eq!(check_limits(&config, 50, 0), Some(("Maximum iterations (50) reached".to_string(), true)));
    assert_eq!(check_limits(&config, 0, 3601), Some(("DAG timeout exceeded".to_string(), false)));
    let d = diamond();
    match Run::new().parallel_round(false, Some(&d), &Cache::new(), 4000, &config) {
        Round::Abort { error, needs_human } => {
            assert_eq!(error, "DAG timeout exceeded");
            assert!(!needs_human);
        },
        _ => panic!("time is up"),
    }
}

#[test]
fn supervisor_tells_its_iteration() {
    let mut s = node("s", &[]);
    s.action = "supervisor_step".to_string();
    s.inputs.push(IField { name: "iteration".to_string(), description: None, reference: "s.iteration".to_string() });
    let d = build_dag_internal(&registry(), &graph(vec![s, node("a", &[])])).unwrap();
    let mut cache = Cache::new();
    let mut run = Run::new();
    run.launch("a");
    run.complete(outcome("a", true), OnFailure::Stop);
    assert_eq!(run.supervisor_iteration(&d, &cache), 0);
    cache.insert_value("s", "iteration", Value::Number("7".to_string()));
    assert_eq!(run.supervisor_iteration(&d, &cache), 7);
    assert_eq!(run.supervisor_iteration(&diamond(), &cache), 1);
}

#[test]
fn cache_is_saved_from_time_to_time() {
    let mut config = DagConfig::default();
    let mut run = Run::new();
    assert!(!run.snapshot_due(&config, 1000));
    config.enable_incremental_cache = true;
    assert!(run.snapshot_due(&config, 301));
    assert!(!run.snapshot_due(&config, 300));
    assert_eq!(run.delta, 1);
}

#[test]
fn parallel_execution_needs_room() {
    let config = DagConfig::default();
    assert!(runs_in_parallel(&config, Some(3)));
    assert!(!runs_in_parallel(&config, None));
    assert!(!runs_in_parallel(&DagConfig { enable_parallel_execution: false, ..config }, Some(3)));
}
