//! Agents that publish and subscribe.

use dagger::dag_flow::cache::Cache;
use dagger::dag_flow::config::{HumanTimeoutAction, RetryStrategy};
use dagger::dag_flow::node::NodeExecutionOutcome;
use dagger::dag_flow::tree::{update_execution_tree, ExecutionTree, NodeSnapshot, Timestamp};
use dagger::pubsubagent::delivery::{
    agent_name_at, is_first, load_state, replay_channel, restored_channels, save_state, HumanEvent, PublishAttempts,
};
use dagger::pubsubagent::dot::serialize_tree_to_dot;
use dagger::pubsubagent::executor::{
    channel_status, checked_config, judge_payload, registration_channels, ChannelRecord, ChannelStep, PubSubExecutor,
};
use dagger::pubsubagent::global::GlobalAgentRegistry;
use dagger::pubsubagent::message::{
    processing_outcome, AgentMetadata, AgentOffer, Message, PubSubConfig, PubSubError, PubSubExecutionReport,
};
use dagger::schema::Verdict;
use dagger::string_map::{StringMap, StringSet};
use dagger::value::{object, string, Value};

const ANY: &str = "{\"type\":\"object\"}";
const COUNTED: &str = "{\"type\":\"object\",\"required\":[\"n\"]}";

fn at(secs: i64) -> Timestamp {
    Timestamp { secs, nanos: 0 }
}

fn offer(subscriptions: &[&str], publications: &[&str], schema: &str) -> AgentOffer {
    AgentOffer {
        subscriptions: subscriptions.iter().map(|s| s.to_string()).collect(),
        publications: publications.iter().map(|s| s.to_string()).collect(),
        input_schema: schema.to_string(),
        output_schema: ANY.to_string(),
    }
}

fn executor() -> PubSubExecutor<u64> {
    let mut e = PubSubExecutor::new(PubSubConfig::default(), at(0));
    e.register_agent(1, offer(&["orders", "late"], &["bills"], COUNTED), "today").unwrap();
    e.register_agent(2, offer(&["bills"], &[], ANY), "today").unwrap();
    e
}

fn message(payload: &str) -> Message {
    Message::new("me".to_string(), payload.to_string(), at(5))
}

#[test]
fn default_agent_configuration_is_valid() {
    let c = PubSubConfig::default();
    assert!(c.validate().is_ok());
    assert_eq!(c.capacity(), 1000);
    assert_eq!(c.human_wait_secs(), 300);
    assert_eq!(c.max_attempts, 3);
    assert!(checked_config(None).is_ok());
}

#[test]
fn agent_configuration_out_of_range_is_refused() {
    let refused = |c: PubSubConfig, why: &str| assert_eq!(c.validate().unwrap_err(), why);
    refused(PubSubConfig { timeout_seconds: Some(0), ..PubSubConfig::default() }, "timeout_seconds must be greater than 0");
    refused(
        PubSubConfig { timeout_seconds: Some(86_401), ..PubSubConfig::default() },
        "timeout_seconds cannot exceed 24 hours",
    );
    refused(PubSubConfig { max_messages: Some(0), ..PubSubConfig::default() }, "max_messages must be greater than 0");
    let e = checked_config(Some(PubSubConfig { max_messages: Some(0), ..PubSubConfig::default() })).err().unwrap();
    assert!(matches!(e, PubSubError::ValidationError(t) if t == "max_messages must be greater than 0"));
}

#[test]
fn agent_is_known_by_its_first_subscription() {
    let e = executor();
    let m = e.get_agent_metadata("orders").unwrap();
    assert_eq!(m.name, "orders");
    assert_eq!(m.publications, vec!["bills"]);
    assert!(e.get_agent_metadata("late").is_none());
    assert_eq!(e.list_agents().len(), 2);
    let mut e = e;
    let refused = e.register_agent(3, offer(&[], &[], ANY), "today").err().unwrap();
    assert_eq!(refused.message(), "Validation error: Agent must have at least one subscription");
    assert!(registration_channels(&offer(&[], &["x"], ANY)).is_err());
    assert_eq!(registration_channels(&offer(&["a"], &["x"], ANY)).ok().unwrap(), vec!["a", "x"]);
}

#[test]
fn supervisor_comes_first() {
    let mut e: PubSubExecutor<u64> = PubSubExecutor::new(PubSubConfig::default(), at(0));
    assert!(e.register_supervisor_agent(1, offer(&["lead"], &[], ANY), "today").is_ok());
    let late = e.register_supervisor_agent(2, offer(&["other"], &[], ANY), "today").err().unwrap();
    assert_eq!(late.message(), "Execution error: Supervisor agent must be registered first");
}

#[test]
fn message_is_held_to_the_schemas_of_its_readers() {
    let mut e = executor();
    let m = e.publish("orders", message("{\"n\":1}"), 0).unwrap();
    assert_eq!(m.channel.as_deref(), Some("orders"));
    assert_eq!(m.source, "default_agent");
    assert_eq!(m.payload, "{\"n\":1}");
    e.set_current_agent_id("agent".to_string());
    assert_eq!(e.get_current_agent_id().as_deref(), Some("agent"));
    assert_eq!(e.publish("bills", message("{}"), 0).unwrap().source, "agent");
    e.clear_current_agent_id();
    assert!(e.get_current_agent_id().is_none());
    assert!(matches!(e.publish("orders", message("{}"), 0), Err(PubSubError::ValidationError(_))));
    assert!(matches!(e.publish("bills", message("{}"), 3601), Err(PubSubError::TimeoutExceeded)));
    e.stop();
    assert!(matches!(e.publish("bills", message("{}"), 0), Err(PubSubError::ExecutionError(t)) if t == "Executor is stopped"));
}

#[test]
fn payload_verdicts_become_errors() {
    assert!(judge_payload(Verdict::Valid).is_ok());
    let e = judge_payload(Verdict::Invalid("no n".to_string())).err().unwrap();
    assert_eq!(e.message(), "Validation error: Message payload validation failed: no n");
    assert!(judge_payload(Verdict::NoSchema("broken".to_string())).is_err());
    let e = judge_payload(Verdict::NoDocument("end".to_string())).err().unwrap();
    assert_eq!(e.message(), "Validation error: Message payload is not readable: end");
}

#[test]
fn agent_channels_are_made_once() {
    let mut e = executor();
    match e.ensure_channel("orders", "today", None, 0) {
        ChannelStep::Create(c) => {
            assert_eq!(c.channel, "orders");
            assert_eq!(c.capacity, 1000);
        },
        _ => panic!("the channel is new"),
    }
    assert!(matches!(e.ensure_channel("orders", "today", None, 4), ChannelStep::Keep));
    let stored =
        ChannelRecord { channel: "orders".to_string(), capacity: 7, created_at: "then".to_string(), active_subscribers: 0 };
    match e.ensure_channel("orders", "today", Some(stored), 4) {
        ChannelStep::Update(c) => {
            assert_eq!(c.active_subscribers, 4);
            assert_eq!(c.capacity, 7);
        },
        _ => panic!("the channel is stored"),
    }
}

#[test]
fn unused_channels_are_dropped() {
    let mut e = executor();
    for c in ["orders", "idle", "heard"] {
        e.ensure_channel(c, "today", None, 0);
    }
    let mut receivers: StringMap<usize> = StringMap::new();
    receivers.insert("heard".to_string(), 1);
    receivers.insert("idle".to_string(), 0);
    assert_eq!(e.cleanup_channels(&receivers), vec!["idle"]);
    assert!(e.channels.contains("orders"));
    assert!(e.channels.contains("heard"));
    assert!(!e.channels.contains("idle"));
}

#[test]
fn channel_with_subscribers_is_closed_by_force() {
    let mut e = executor();
    assert!(matches!(e.shutdown_channel("orders", false, 0), Err(PubSubError::ChannelNotFound(c)) if c == "orders"));
    e.ensure_channel("orders", "today", None, 0);
    let refused = e.shutdown_channel("orders", false, 2).err().unwrap();
    assert_eq!(
        refused.message(),
        "Execution error: Channel 'orders' has 2 active subscribers. Use force=true to shutdown anyway.",
    );
    assert!(e.shutdown_channel("orders", true, 2).is_ok());
    assert!(!e.channels.contains("orders"));
    let s = channel_status("orders", 2, 3, None);
    assert_eq!(s.subscriber_count, 2);
    assert_eq!(s.message_count, 3);
}

#[test]
fn agent_subscribes_to_more() {
    let mut e = executor();
    assert!(e.subscribe_agent("orders", "extra").is_ok());
    assert_eq!(e.get_agent_metadata("orders").unwrap().subscriptions, vec!["orders", "late", "extra"]);
    assert!(matches!(e.subscribe_agent("gone", "extra"), Err(PubSubError::AgentNotFound(n)) if n == "gone"));
    let found = e.find_agents_for_input("{}");
    assert_eq!(found.len(), 1);
    assert_eq!(found[0].name, "bills");
    assert_eq!(e.find_agents_for_input("{\"n\":1}").len(), 2);
}

#[test]
fn every_subscription_is_listened_to() {
    let mut e = executor();
    for c in ["orders", "late", "bills"] {
        e.ensure_channel(c, "today", None, 0);
    }
    let l = e.listeners();
    assert_eq!(l.len(), 3);
    assert_eq!(l[0].channel, "orders");
    assert_eq!(e.start().len(), 3);
    let m = e.initial_message("orders", "{}".to_string(), 77, at(9)).unwrap();
    assert_eq!(m.source, "initial_77");
    let empty: PubSubExecutor<u64> = PubSubExecutor::new(PubSubConfig::default(), at(0));
    assert!(matches!(empty.initial_message("orders", "{}".to_string(), 77, at(9)), Err(PubSubError::NoAgentsRegistered)));
}

#[test]
fn full_channel_is_recognised() {
    let e = executor();
    assert!(!e.at_capacity(999));
    assert!(e.at_capacity(1000));
}

#[test]
fn broadcast_is_tried_again() {
    let c = PubSubConfig { retry_strategy: RetryStrategy::Linear { delay_secs: 4 }, ..PubSubConfig::default() };
    let mut a = PublishAttempts::new(&c);
    assert_eq!(a.failures(&c), 1);
    assert_eq!(a.after_failure(&c, "full", 0).ok(), Some(4));
    assert_eq!(a.after_failure(&c, "full", 0).ok(), Some(4));
    assert_eq!(a.failures(&c), 3);
    let e = a.after_failure(&c, "full", 0).err().unwrap();
    assert_eq!(e.message(), "Execution error: Failed to broadcast after 3 attempts: full");
}

#[test]
fn messages_are_processed_once() {
    let mut seen = StringSet::new();
    assert!(is_first(&mut seen, "orders", 5));
    assert!(!is_first(&mut seen, "orders", 5));
    assert!(is_first(&mut seen, "orders", 6));
    assert!(seen.contains("msg_orders_5"));
}

#[test]
fn lost_messages_are_replayed() {
    let mut c = Cache::new();
    assert_eq!(replay_channel(&c, "msg_orders_5").as_deref(), Some("orders"));
    assert_eq!(replay_channel(&c, "plain").as_deref(), Some("unknown"));
    c.insert_value("orders", "msg_orders_5", Value::Null);
    assert!(replay_channel(&c, "msg_orders_5").is_none());
}

#[test]
fn stored_agents_are_restored() {
    let m = AgentMetadata {
        name: "orders".to_string(),
        subscriptions: vec!["orders".to_string()],
        publications: vec!["bills".to_string()],
        input_schema: ANY.to_string(),
        output_schema: ANY.to_string(),
        registered_at: "then".to_string(),
    };
    let loaded = vec![("orders".to_string(), m)];
    assert_eq!(restored_channels(&loaded), vec!["orders", "bills"]);
    let mut e: PubSubExecutor<u64> = PubSubExecutor::new(PubSubConfig::default(), at(0));
    e.restore_agents(vec![("orders".to_string(), 4), ("gone".to_string(), 5)], &loaded);
    assert_eq!(e.list_agents().len(), 1);
    assert_eq!(e.agent_registry.get("orders").unwrap().agent, 4);
    assert_eq!(e.get_agent_metadata("orders").unwrap().registered_at, "then");
}

#[test]
fn saved_state_is_loaded() {
    let bytes = vec![5u8; 300];
    let stored = save_state(&bytes).unwrap();
    assert!(stored != bytes);
    assert_eq!(load_state(&stored).unwrap(), bytes);
}

#[test]
fn waiting_for_a_human_ends() {
    let mut e = executor();
    assert!(e.after_human_wait(HumanEvent::Answered).is_ok());
    assert_eq!(e.after_human_wait(HumanEvent::Cancelled).unwrap_err(), "Human interrupt cancelled");
    e.config.human_timeout_action = HumanTimeoutAction::Autopilot;
    assert!(e.after_human_wait(HumanEvent::TimedOut).is_ok());
    assert!(!e.stopped);
    e.config.human_timeout_action = HumanTimeoutAction::Pause;
    assert_eq!(e.after_human_wait(HumanEvent::TimedOut).unwrap_err(), "Paused for human input");
    assert!(e.stopped);
}

#[test]
fn agents_are_named_in_a_file() {
    let named = object(vec![("name".to_string(), string("a"))]);
    let config = object(vec![("agents".to_string(), Value::Array(vec![named, Value::Null]))]);
    assert_eq!(agent_name_at(&config, 0).ok().unwrap().as_deref(), Some("a"));
    assert!(matches!(agent_name_at(&config, 1), Err(PubSubError::ValidationError(t)) if t == "Missing agent name"));
    assert!(agent_name_at(&config, 2).ok().unwrap().is_none());
    assert!(agent_name_at(&Value::Null, 0).ok().unwrap().is_none());
}

#[test]
fn factories_make_agents() {
    let mut r: GlobalAgentRegistry<fn() -> u64> = GlobalAgentRegistry::new();
    assert!(r.register("a".to_string(), || 7).is_ok());
    let again = r.register("a".to_string(), || 8).err().unwrap();
    assert_eq!(again.message(), "Execution error: Agent 'a' already registered");
    assert_eq!(r.create_agent::<u64>("a").ok(), Some(7));
    assert!(r.get_factory("b").is_none());
    assert_eq!(r.create_agent::<u64>("b").err().unwrap().message(), "Agent not found: Agent factory 'b' not found");
    assert_eq!(r.list_agents(), vec!["a"]);
}

#[test]
fn reports_tell_how_it_ended() {
    let ok = processing_outcome("a", Ok(()));
    assert!(ok.success);
    let bad = processing_outcome("a", Err("x".to_string()));
    assert!(!bad.success);
    assert!(PubSubExecutionReport::completed(vec![ok]).overall_success);
    let c = PubSubExecutionReport::cancelled(vec![bad]);
    assert!(!c.overall_success);
    assert_eq!(c.error.as_deref(), Some("Execution cancelled"));
    assert_eq!(PubSubError::Cancelled.message(), "Cancelled");
    assert_eq!(PubSubError::LockError("x".to_string()).message(), "Lock error: x");
    assert_eq!(PubSubError::DatabaseError("x".to_string()).message(), "Database error: x");
}

#[test]
fn drawing_tells_agents_from_messages() {
    let snap = |id: &str, channel: &str| NodeSnapshot {
        node_id: id.to_string(),
        outcome: NodeExecutionOutcome {
            node_id: id.to_string(),
            success: true,
            retry_messages: Vec::new(),
            final_error: None,
        },
        cache_ref: "r".to_string(),
        timestamp: at(3661),
        channel: Some(channel.to_string()),
        message_id: Some("m1".to_string()),
    };
    let mut t = ExecutionTree::new();
    update_execution_tree(&mut t, snap("agent", "orders"), None, None);
    update_execution_tree(
        &mut t,
        snap("publish_bills", "bills"),
        Some("agent".to_string()),
        Some("published_to_bills".to_string()),
    );
    let text = serialize_tree_to_dot(&t);
    assert!(text.starts_with("digraph PubSubFlow {\n"));
    assert!(text.contains("<B>Agent: agent</B>"));
    assert!(text.contains("<TR><TD>Channel: orders</TD></TR>"));
    assert!(text.contains("<TR><TD>Message ID: m1</TD></TR>"));
    assert!(text.contains("✓ Sent"));
    assert!(text.contains("\"agent\" -> \"publish_bills\" [label=\"published to bills"));
    assert!(text.ends_with("}\n"));
}
