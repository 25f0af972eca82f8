//! Building workflows.

use dagger::dag_flow::dag_builder::{BackoffStrategy, DagFlowBuilder, ErrorHandling, NodeBuilder, NodeStatus};
use dagger::value::{object, string};
use std::time::Duration;

#[test]
fn test_dag_builder() {
    let (config, nodes) = DagFlowBuilder::new("test_dag")
        .description("A test DAG")
        .max_parallel_nodes(5)
        .enable_caching(true)
        .retry_policy(|retry| retry.max_retries(3).exponential_backoff().retry_on(vec!["timeout", "resource"]))
        .node(|node| {
            node.id("node1")
                .name("First Node")
                .node_type("processor")
                .config(object(vec![("param".to_string(), string("value"))]))
                .cacheable(true)
        })
        .node(|node| {
            node.id("node2").name("Second Node").node_type("transformer").timeout(Duration::from_secs(30))
        })
        .depends_on("node2", "node1")
        .build()
        .unwrap();

    assert_eq!(config.name, "test_dag");
    assert_eq!(config.max_parallel_nodes, 5);
    assert_eq!(nodes.len(), 2);
    assert!(nodes.contains_key("node1"));
    assert!(nodes.contains_key("node2"));
    assert_eq!(nodes.get("node2").unwrap().dependencies, vec!["node1"]);
}

#[test]
fn test_cycle_detection() {
    let result = DagFlowBuilder::new("cyclic_dag")
        .node(|node| node.id("a").node_type("test"))
        .node(|node| node.id("b").node_type("test"))
        .node(|node| node.id("c").node_type("test"))
        .depends_on("b", "a")
        .depends_on("c", "b")
        .depends_on("a", "c")
        .build();

    assert!(result.is_err());
    assert_eq!(result.err().unwrap().message(), "Validation failed: DAG contains cycles");
}

#[test]
fn dag_builder_test_validation() {
    let result = DagFlowBuilder::new("invalid_dag")
        .node(|node| node.id("node1").node_type("test"))
        .depends_on("node1", "nonexistent")
        .build();

    assert!(result.is_err());
    assert_eq!(
        result.err().unwrap().message(),
        "Validation failed: Node 'node1' depends on non-existent node 'nonexistent'"
    );
}

#[test]
fn a_node_needs_an_id_and_a_type() {
    let no_id = DagFlowBuilder::new("d").node(|n| n.id("").node_type("t")).build();
    assert_eq!(no_id.err().unwrap().message(), "Validation failed: Node ID cannot be empty");
    let no_type = DagFlowBuilder::new("d").node(|n| n.id("a").node_type("")).build();
    assert_eq!(no_type.err().unwrap().message(), "Validation failed: Node type cannot be empty");
}

#[test]
fn nodes_that_depend_on_themselves_are_refused() {
    let result = DagFlowBuilder::new("d").node(|n| n.id("a").node_type("t")).depends_on("a", "a").build();
    assert!(result.is_err());
}

#[test]
fn the_context_starts_with_all_nodes_waiting() {
    let context = DagFlowBuilder::new("d")
        .nodes(vec![NodeBuilder::new().id("a").node_type("t"), NodeBuilder::new().id("b").node_type("t")])
        .depends_on_all("b", &vec!["a".to_string()])
        .error_handling(ErrorHandling::SkipOnError)
        .build_execution_context()
        .unwrap();
    assert_eq!(context.state.metrics.total_nodes, 2);
    assert_eq!(context.state.node_states.get("b").unwrap().status, NodeStatus::Pending);
    assert!(matches!(context.config.error_handling, ErrorHandling::SkipOnError));
    assert_eq!(context.config.retry_policy.backoff, BackoffStrategy::Exponential);
}
