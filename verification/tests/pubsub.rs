//! Agents that exchange messages.

use dagger::dag_flow::tree::Timestamp;
use dagger::pubsub::pubsub::{
    concerns, publish_failure, validate_input, validate_output, AgentMetadata, Message, PubSubConfig, PubSubError, PubSubExecutor,
};

const NOW: Timestamp = Timestamp { secs: 10, nanos: 0 };

fn metadata(name: &str) -> AgentMetadata {
    AgentMetadata {
        name: name.to_string(),
        description: "Test agent".to_string(),
        subscriptions: vec!["test_input".to_string()],
        publications: vec!["test_output".to_string()],
        input_schema: r#"{"type":"object","properties":{"message":{"type":"string"}}}"#.to_string(),
        output_schema: r#"{"type":"object","properties":{"response":{"type":"string"}}}"#.to_string(),
        registered_at: "now".to_string(),
    }
}

#[test]
fn test_basic_pubsub() {
    let mut executor: PubSubExecutor<u8> = PubSubExecutor::new(None);
    let (id, made) = executor.register_agent(1, metadata("test_agent"));
    assert!(id.starts_with("test_agent_"));
    assert_eq!(id.len(), "test_agent_".len() + 8);
    assert_eq!(made, vec!["test_input".to_string(), "test_output".to_string()]);

    let agents = executor.list_agents();
    assert_eq!(agents.len(), 1);
    assert_eq!(agents[0].name, "test_agent");
}

#[test]
fn channels_are_made_once() {
    let mut executor: PubSubExecutor<u8> = PubSubExecutor::new(Some(PubSubConfig::default()));
    executor.register_agent_as(1, metadata("a"), "a_1".to_string());
    let made = executor.register_agent_as(2, metadata("b"), "b_1".to_string());
    assert!(made.is_empty());
    assert!(executor.ensure_channel_exists("third"));
    assert!(!executor.ensure_channel_exists("third"));
    assert_eq!(executor.list_channels().len(), 3);
    let listeners = executor.listeners();
    assert_eq!(listeners.len(), 2);
    assert_eq!(listeners[1].node_id, "b_1");
    assert_eq!(listeners[1].channel, "test_input");
    executor.stop();
    assert!(executor.stopped);
}

#[test]
fn messages_name_their_channel() {
    let mut executor: PubSubExecutor<u8> = PubSubExecutor::new(None);
    executor.ensure_channel_exists("c");
    let m = executor.publish("c", Message::new("s".to_string(), "{}".to_string(), NOW)).unwrap();
    assert_eq!(m.channel, Some("c".to_string()));
    assert_eq!(m.message_id.len(), 36);
    let m = Message::with_task_id("s".to_string(), "t".to_string(), "{}".to_string(), NOW);
    assert_eq!(m.task_id, Some("t".to_string()));
    assert!(!concerns("s", &m));
    assert!(concerns("other", &m));
    assert_eq!(executor.publish("d", m).unwrap_err(), "Channel not found: d");
    assert_eq!(publish_failure("closed"), "Failed to publish message: closed");
}

#[test]
fn messages_are_held_against_the_schema() {
    let m = metadata("a");
    assert!(validate_input(&m.input_schema, r#"{"message":"hello"}"#).is_ok());
    assert_eq!(validate_input(&m.input_schema, r#"{"message":1}"#).unwrap_err(), "Invalid input message schema");
    assert_eq!(validate_output(&m.output_schema, "[]").unwrap_err(), "Invalid output message schema");
    assert!(validate_input(r#"{"type":5}"#, "{}").unwrap_err().starts_with("Failed to compile input schema: "));
}

#[test]
fn errors_in_words() {
    let text = |e: PubSubError| e.into_error().message();
    assert_eq!(
        text(PubSubError::ChannelNotFound("c".to_string())),
        "Execution failed in pubsub: Channel not found: c"
    );
    assert_eq!(PubSubError::AgentNotFound("a".to_string()).message(), "Agent not found: a");
    assert_eq!(PubSubError::ValidationError("v".to_string()).message(), "Message validation failed: v");
    assert_eq!(PubSubError::ExecutionError("e".to_string()).message(), "Execution error: e");
}
