//! Execution of built workflows.

use dagger::dag_flow::dag_builder::{
    BackoffStrategy, DagExecutionMetrics, DagExecutionState, DagFlowBuilder, DagStatus, ErrorHandling, NodeDefinition,
    NodeExecutionState, NodeStatus, RetryPolicy,
};
use dagger::dag_flow::enhanced_dag_flow::{
    before_attempt, build_graph, cache_key, calculate_backoff_delay, exponential_delay, last_failure, missing_action,
    operation_name, policy_of, should_retry_error, update_node_state, EnhancedExecutionResult, ExampleEnhancedAction,
    Progress, Retries,
};
use dagger::errors::DaggerError;
use dagger::string_map::StringMap;
use dagger::value::{object, string, Value};
use std::time::Duration;

fn definitions(edges: &[(&str, &[&str])]) -> StringMap<NodeDefinition> {
    let mut m = StringMap::new();
    for (id, deps) in edges {
        let mut n = NodeDefinition::new(id, "example");
        n.dependencies = deps.iter().map(|s| s.to_string()).collect();
        m.insert(id.to_string(), n);
    }
    m
}

fn state() -> DagExecutionState {
    DagExecutionState {
        status: DagStatus::Pending,
        node_states: StringMap::new(),
        start_time: None,
        end_time: None,
        error: None,
        metrics: DagExecutionMetrics::default(),
    }
}

fn pending() -> NodeExecutionState {
    NodeExecutionState {
        status: NodeStatus::Pending,
        start_time: None,
        end_time: None,
        attempts: 0,
        error: None,
        result: None,
    }
}

#[test]
fn test_enhanced_dag_execution() {
    let (config, nodes) = DagFlowBuilder::new("test_dag")
        .description("Test DAG for enhanced execution")
        .node(|node| {
            node.id("test_node").name("Test Node").node_type("example").config(
                object(
                    vec![
                        ("delay_ms".to_string(), Value::Number("100".to_string())),
                        ("message".to_string(), string("Hello, Enhanced DAG!")),
                    ],
                ),
            )
        })
        .build()
        .unwrap();
    let action = ExampleEnhancedAction::new("example".to_string());
    assert!(build_graph(&nodes).is_ok());
    let mut run_state = state();
    let mut progress = Progress::new();
    let mut results: Vec<EnhancedExecutionResult> = Vec::new();
    while !progress.is_over(&nodes) {
        for id in progress.start_ready(&nodes).unwrap() {
            let definition = nodes.get(&id).unwrap();
            let mut result = EnhancedExecutionResult::begin(definition, Duration::from_millis(1), 5);
            action.validate_input(&definition.config).unwrap();
            let run = action.execute(&id, &definition.config, "now");
            assert_eq!(run.delay_ms, 100);
            assert_eq!(run.operation, "action_example");
            assert_eq!(run.result.get("result").unwrap().as_str(), Some("Processed: Hello, Enhanced DAG!"));
            result.gave(run.result);
            result.end(9, Duration::from_millis(4), &None);
            progress.finish(&mut run_state, &config.error_handling, &id, None, 9).unwrap();
            results.push(result);
        }
    }

    assert_eq!(results.len(), 1);
    let result = &results[0];
    assert_eq!(result.node_id, "test_node");
    assert!(matches!(result.status, NodeStatus::Completed));
    assert!(result.result.is_some());
    assert!(result.metrics.execution_duration.is_some());
}

#[test]
fn graph_of_definitions_has_their_edges() {
    let g = build_graph(&definitions(&[("a", &[]), ("b", &["a"]), ("c", &["a", "b"])])).unwrap();
    assert_eq!(g.edge_list(), vec![(0, 1), (0, 2), (1, 2)]);
    let e = build_graph(&definitions(&[("a", &["z"])])).err().unwrap();
    assert!(e.message().contains("Node 'a' depends on non-existent node 'z'"));
    let e = build_graph(&definitions(&[("a", &["b"]), ("b", &["a"])])).err().unwrap();
    assert!(e.message().contains("DAG contains cycles"));
}

#[test]
fn started_nodes_wait_for_no_one() {
    let nodes = definitions(&[("b", &["a"]), ("a", &[]), ("c", &["b"])]);
    let mut s = state();
    let mut p = Progress::new();
    assert_eq!(p.start_ready(&nodes).unwrap(), vec!["a"]);
    assert!(p.start_ready(&nodes).unwrap().is_empty());
    p.finish(&mut s, &ErrorHandling::StopOnError, "a", None, 1).unwrap();
    assert_eq!(p.start_ready(&nodes).unwrap(), vec!["b"]);
    p.finish(&mut s, &ErrorHandling::ContinueOnError, "b", Some(DaggerError::internal("x")), 2).unwrap();
    assert_eq!(p.start_ready(&nodes).unwrap(), vec!["c"]);
    assert!(!p.is_over(&nodes));
    assert!(p.finish(&mut s, &ErrorHandling::StopOnError, "c", Some(DaggerError::internal("x")), 3).is_err());
    assert!(!p.is_over(&nodes));
}

#[test]
fn deadlock_is_told() {
    let nodes = definitions(&[("a", &["b"]), ("b", &["a"])]);
    let e = Progress::new().start_ready(&nodes).err().unwrap();
    assert!(e.message().contains("possible dependency deadlock"));
}

#[test]
fn skipped_node_is_marked() {
    let mut s = state();
    s.node_states.insert("a".to_string(), pending());
    let mut p = Progress::new();
    let failure = DaggerError::timeout("work", 10);
    let text = failure.message();
    p.finish(&mut s, &ErrorHandling::SkipOnError, "a", Some(failure), 7).unwrap();
    let n = s.node_states.get("a").unwrap();
    assert!(matches!(n.status, NodeStatus::Skipped));
    assert_eq!(n.error.as_ref().unwrap(), &text);
    assert!(p.completed.contains("a"));
    assert!(p.finish(&mut s, &ErrorHandling::Custom("own".to_string()), "b", Some(DaggerError::internal("x")), 8).is_err());
}

#[test]
fn node_states_are_counted() {
    let mut s = state();
    s.node_states.insert("a".to_string(), pending());
    update_node_state(&mut s, "a", NodeStatus::Running, None, 3);
    assert_eq!(s.node_states.get("a").unwrap().start_time, Some(3));
    update_node_state(&mut s, "a", NodeStatus::Completed, None, 4);
    assert_eq!(s.node_states.get("a").unwrap().end_time, Some(4));
    assert_eq!(s.metrics.completed_nodes, 1);
    update_node_state(&mut s, "a", NodeStatus::Failed, Some("x".to_string()), 5);
    assert_eq!(s.metrics.failed_nodes, 1);
}

#[test]
fn delays_grow_up_to_a_bound() {
    let mut p = RetryPolicy::default();
    assert_eq!(exponential_delay(4, Duration::from_secs(1)), 8_000_000_000);
    assert_eq!(calculate_backoff_delay(1, &p, 0), Duration::from_secs(1));
    assert_eq!(calculate_backoff_delay(4, &p, 0), Duration::from_secs(8));
    assert_eq!(calculate_backoff_delay(10, &p, 0), Duration::from_secs(60));
    p.backoff = BackoffStrategy::Linear;
    assert_eq!(calculate_backoff_delay(4, &p, 0), Duration::from_secs(4));
    p.backoff = BackoffStrategy::Fixed;
    assert_eq!(calculate_backoff_delay(4, &p, 0), Duration::from_secs(1));
    p.backoff = BackoffStrategy::ExponentialJitter;
    assert_eq!(calculate_backoff_delay(4, &p, 1500), Duration::from_millis(1500));
    assert_eq!(calculate_backoff_delay(4, &p, 90_000), Duration::from_secs(60));
}

#[test]
fn only_listed_errors_are_tried_again() {
    let p = RetryPolicy::default();
    let timeout = DaggerError::timeout("work", 10);
    assert!(should_retry_error(&timeout, &p));
    assert!(!should_retry_error(&DaggerError::validation("x"), &p));
    assert!(before_attempt(0, &None, &p, 0).unwrap().is_none());
    assert_eq!(before_attempt(1, &Some(timeout), &p, 0).unwrap(), Some(Duration::from_secs(1)));
    let e = before_attempt(1, &Some(DaggerError::validation("x")), &p, 0).err().unwrap();
    assert!(e.message().contains("Retry limit exceeded"));
    assert!(last_failure(None).message().contains("Unknown execution error"));
    assert!(matches!(last_failure(Some(DaggerError::validation("x"))), DaggerError::Validation { .. }));
    assert!(missing_action().message().contains("No action registered for node type"));
}

#[test]
fn own_policy_comes_first() {
    let usual = RetryPolicy::default();
    let mut n = NodeDefinition::new("a", "example");
    assert_eq!(policy_of(&n, &usual).max_retries, 3);
    n.retry_policy = Some(RetryPolicy { max_retries: 9, ..RetryPolicy::default() });
    assert_eq!(policy_of(&n, &usual).max_retries, 9);
}

#[test]
fn results_are_cached_where_wanted() {
    let mut n = NodeDefinition::new("a", "example");
    n.cacheable = true;
    let mut r = EnhancedExecutionResult::begin(&n, Duration::from_millis(1), 5);
    r.attempt(2);
    r.end(9, Duration::from_millis(4), &None);
    assert!(!r.is_to_be_cached(&n));
    r.gave(Value::Null);
    assert!(r.is_to_be_cached(&n));
    assert_eq!(r.retry_count, 2);
    r.found();
    assert!(r.metrics.cache_hit);
    n.cacheable = false;
    assert!(!r.is_to_be_cached(&n));
    let failure = Some(DaggerError::validation("x"));
    r.end(9, Duration::from_millis(4), &failure);
    assert!(matches!(r.status, NodeStatus::Failed));
    assert_eq!(r.error.unwrap(), failure.unwrap().message());
    assert_eq!(operation_name("example"), "node_execution_example");
    assert_eq!(cache_key("a"), "node_result_a");
}

#[test]
fn example_action_checks_its_input() {
    let action = ExampleEnhancedAction::new("example".to_string());
    assert_eq!(action.name(), "example");
    let input = |delay: Value| object(vec![("delay_ms".to_string(), delay), ("message".to_string(), string("m"))]);
    assert!(action.validate_input(&object(Vec::new())).err().unwrap().message().contains("Message field is required"));
    assert!(action.validate_input(&input(Value::Number("60000".to_string()))).is_ok());
    assert!(action.validate_input(&input(Value::Number("60001".to_string()))).is_err());
    assert!(action.validate_input(&input(string("1"))).is_err());
    let run = action.execute("n", &Value::Null, "t");
    assert_eq!(run.delay_ms, 0);
    assert_eq!(run.result.get("result").unwrap().as_str(), Some("Processed: No message"));
    assert_eq!(run.result.get("processed_at").unwrap().as_str(), Some("t"));
}

#[test]
fn node_is_attempted_once_more_than_it_is_tried_again() {
    let p = RetryPolicy { max_retries: 2, ..RetryPolicy::default() };
    let mut r = Retries::new();
    assert_eq!(r.next_attempt(&p, 0).unwrap(), Some((0, None)));
    r.failed(DaggerError::timeout("work", 10));
    assert_eq!(r.next_attempt(&p, 0).unwrap(), Some((1, Some(Duration::from_secs(1)))));
    r.failed(DaggerError::timeout("work", 10));
    assert_eq!(r.next_attempt(&p, 0).unwrap(), Some((2, Some(Duration::from_secs(2)))));
    r.failed(DaggerError::timeout("work", 10));
    assert_eq!(r.next_attempt(&p, 0).unwrap(), None);
    assert!(matches!(last_failure(r.last_error), DaggerError::Timeout { .. }));
    let mut r = Retries::new();
    r.failed(DaggerError::validation("x"));
    assert!(r.next_attempt(&p, 0).err().unwrap().message().contains("Retry limit exceeded"));
}
