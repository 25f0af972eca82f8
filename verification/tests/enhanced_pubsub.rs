//! Messages that are kept, limited and acknowledged.

use dagger::builders::DaggerBuilder;
use dagger::errors::DaggerError;
use dagger::limits::ResourceTracker;
use dagger::pubsub::enhanced_pubsub::{estimate_message_size, identify, store_message, EnhancedMessage, EnhancedPubSub, RateLimiter};
use dagger::pubsub::pubsub_builder::{Message, MessageRetentionPolicy, PubSubBuilder, SubscriptionType};
use dagger::string_map::StringMap;
use std::time::Duration;

const SECOND: u128 = 1_000_000_000;

fn message(payload: &str, publisher: &str, timestamp: u64) -> Message {
    Message {
        id: String::new(),
        key: Some("test_key".to_string()),
        payload: payload.to_string(),
        headers: StringMap::new(),
        timestamp,
        priority: Some(5),
        ttl: None,
        publisher_id: publisher.to_string(),
        metadata: StringMap::new(),
    }
}

fn stored(sequence_number: u64, timestamp: u64) -> EnhancedMessage {
    EnhancedMessage {
        message: message("{}", "p", timestamp),
        sequence_number,
        channel: "c".to_string(),
        delivery_attempts: 0,
        size_bytes: 1,
        compressed: false,
    }
}

#[test]
fn test_enhanced_pubsub() {
    let dagger_config = DaggerBuilder::testing().build().unwrap();
    let mut tracker = ResourceTracker::new(dagger_config.limits).unwrap();

    let (pubsub_config, mut channels, mut subscriptions) = PubSubBuilder::new()
        .name("test_pubsub")
        .channel(|ch| ch.name("test_channel").persistent(false))
        .subscription(|sub| {
            sub.name("test_subscription").channel("test_channel").subscription_type(SubscriptionType::Exclusive)
        })
        .build()
        .unwrap();

    let mut pubsub = EnhancedPubSub::new(pubsub_config);
    pubsub.create_channel(channels.remove("test_channel").unwrap()).unwrap();

    let sent = message("{\"data\":\"test_data\"}", "test_publisher", 0);
    let admitted = pubsub.accept("test_channel", sent, 0, &mut tracker).unwrap();
    let delivery = pubsub.publish("test_channel", admitted, 100, 1_000).unwrap();
    let message_id = delivery.message_id;
    assert!(!message_id.is_empty());
    assert!(!delivery.persist);

    let stats = pubsub.get_channel_stats("test_channel").unwrap();
    assert_eq!(stats.total_published, 1);
    assert_eq!(stats.message_count, 1);

    let subscription_config = subscriptions.remove("test_subscription").unwrap();
    let mut subscription = pubsub.subscribe(subscription_config).unwrap();

    subscription.ready().unwrap();
    let received = subscription.receive(&pubsub, None, 5).unwrap();
    assert_eq!(received.message.id, message_id);
    assert_eq!(received.delivery_attempts, 1);

    subscription.acknowledge(&mut pubsub, &message_id).unwrap();
    let again = subscription.acknowledge(&mut pubsub, &message_id);
    assert_eq!(
        again.unwrap_err().message(),
        format!("Validation failed: Message '{}' not found in unacked messages", message_id)
    );
    let stats = pubsub.get_channel_stats("test_channel").unwrap();
    assert_eq!(stats.total_delivered, 1);
    assert_eq!(stats.subscription_count, 1);
    assert_eq!(stats.oldest_message_timestamp, Some(1_000));
    assert_eq!(stats.newest_message_timestamp, Some(1_000));
}

#[test]
fn kept_messages_are_received_one_after_the_other() {
    let mut tracker = ResourceTracker::new(DaggerBuilder::testing().build().unwrap().limits).unwrap();
    let (config, mut channels, mut subscriptions) = PubSubBuilder::new()
        .channel(|c| c.name("c"))
        .subscription(|s| s.name("s").channel("c"))
        .build()
        .unwrap();
    let mut pubsub = EnhancedPubSub::new(config);
    pubsub.create_channel(channels.remove("c").unwrap()).unwrap();
    let mut send = |pubsub: &mut EnhancedPubSub, id: &str| {
        let mut m = message("1", "p", 1);
        m.id = id.to_string();
        let admitted = pubsub.accept("c", m, 0, &mut tracker).unwrap();
        pubsub.publish("c", admitted, 1, 1).unwrap().message
    };
    send(&mut pubsub, "a");
    send(&mut pubsub, "b");
    let mut s = pubsub.subscribe(subscriptions.remove("s").unwrap()).unwrap();
    let live = send(&mut pubsub, "live");
    assert_eq!(s.receive(&pubsub, Some(live), 0).unwrap().message.id, "live");
    assert_eq!(s.receive(&pubsub, None, 1).unwrap().message.id, "a");
    assert_eq!(s.receive(&pubsub, None, 2).unwrap().message.id, "b");
    assert_eq!(s.state.current_position, 2);
    assert_eq!(s.receive(&pubsub, None, 3).unwrap().message.id, "live");
    let next = send(&mut pubsub, "next");
    assert_eq!(s.receive(&pubsub, Some(next), 4).unwrap().message.id, "next");
    let nothing = s.receive(&pubsub, None, 5);
    assert_eq!(nothing.unwrap_err().message(), "Channel error: s - No messages available");
    assert_eq!(s.state.total_received, 5);
}

#[test]
fn a_message_gets_an_id_and_a_time_where_it_has_none() {
    let m = identify(message("{}", "p", 0), "x");
    assert_eq!(m.id, "msg_x");
    let mut own = message("{}", "p", 5);
    own.id = "mine".to_string();
    assert_eq!(identify(own, "x").id, "mine");

    let mut tracker = ResourceTracker::new(DaggerBuilder::testing().build().unwrap().limits).unwrap();
    let (config, mut channels, _) = PubSubBuilder::new().channel(|c| c.name("c")).build().unwrap();
    let mut pubsub = EnhancedPubSub::new(config);
    pubsub.create_channel(channels.remove("c").unwrap()).unwrap();
    let admitted = pubsub.accept("c", message("{}", "p", 0), 0, &mut tracker).unwrap();
    assert!(admitted.message.id.starts_with("msg_"));
    assert_eq!(admitted.message.id.len(), 40);
    let delivery = pubsub.publish("c", admitted, 1, 77).unwrap();
    assert_eq!(delivery.message.message.timestamp, 77);
    let admitted = pubsub.accept("c", message("{}", "p", 5), 0, &mut tracker).unwrap();
    assert_eq!(pubsub.publish("c", admitted, 1, 78).unwrap().message.message.timestamp, 5);
}

#[test]
fn size_of_a_message() {
    let mut m = message("{}", "pub", 1);
    m.id = "id".to_string();
    m.headers.insert("k".to_string(), "vv".to_string());
    assert_eq!(estimate_message_size(&m), 2 + 8 + 8 + 3 + 2 + 3);
    m.key = None;
    m.payload = "\"\u{e9}\"".to_string();
    assert_eq!(estimate_message_size(&m), 2 + 8 + 3 + 4 + 3);
}

#[test]
fn a_publisher_is_limited_within_a_window() {
    let mut limiter = RateLimiter::new(2, 100, Duration::from_secs(1), 0);
    limiter.check_rate_limit(60, 0).unwrap();
    let bytes = limiter.check_rate_limit(50, 1).unwrap_err();
    assert_eq!(bytes.message(), "Resource exhausted: byte_rate (current: 110, limit: 100)");
    limiter.check_rate_limit(40, 2).unwrap();
    let count = limiter.check_rate_limit(0, 3).unwrap_err();
    assert_eq!(count.message(), "Resource exhausted: message_rate (current: 2, limit: 2)");
    assert_eq!(limiter.bytes_at(3), 100);
    assert_eq!(limiter.bytes_at(SECOND), 0);
    limiter.check_rate_limit(100, SECOND).unwrap();
}

#[test]
fn publishing_is_refused_where_it_has_to_be() {
    let mut limits = DaggerBuilder::testing().build().unwrap().limits;
    limits.max_message_size_bytes = 60;
    let mut tracker = ResourceTracker::new(limits).unwrap();
    let (config, mut channels, _) = PubSubBuilder::new()
        .max_channels(1)
        .max_subscribers_per_channel(1)
        .security(|s| s.rate_limiting(|r| r.max_messages_per_sec(1)))
        .performance(|p| p.enable_compression(true).compression_threshold(10))
        .channel(|c| c.name("c"))
        .channel(|c| c.name("d"))
        .subscription(|s| s.name("s").channel("c"))
        .build()
        .unwrap();
    let mut pubsub = EnhancedPubSub::new(config);
    pubsub.create_channel(channels.remove("c").unwrap()).unwrap();
    let full = pubsub.create_channel(channels.remove("d").unwrap());
    assert!(matches!(full, Err(DaggerError::ResourceExhaustion { current: 1, limit: 1, .. })));

    let missing = pubsub.accept("nowhere", message("{}", "p", 1), 0, &mut tracker);
    assert_eq!(missing.unwrap_err().message(), "Validation failed: Channel 'nowhere' not found");
    let large = message(&"x".repeat(100), "p", 1);
    assert!(pubsub.accept("c", large, 0, &mut tracker).is_err());
    assert_eq!(tracker.get_usage_stats().total_limit_violations, 1);

    let mut small = message("1", "p", 1);
    small.id = "a".to_string();
    let admitted = pubsub.accept("c", small, 0, &mut tracker).unwrap();
    assert!(admitted.compressed);
    let mut next = message("1", "p", 1);
    next.id = "b".to_string();
    assert!(pubsub.accept("c", next, 1, &mut tracker).is_err());
    let mut other = message("1", "q", 1);
    other.id = "b".to_string();
    assert!(pubsub.accept("c", other, 1, &mut tracker).is_ok());
    let delivery = pubsub.publish("c", admitted, 9, 1).unwrap();
    assert!(delivery.persist);
    assert_eq!(delivery.message.size_bytes, 9);
}

#[test]
fn a_channel_takes_so_many_subscriptions() {
    let (config, mut channels, mut subscriptions) = PubSubBuilder::new()
        .max_subscribers_per_channel(1)
        .channel(|c| c.name("c"))
        .subscription(|s| s.name("s").channel("c"))
        .subscription(|s| s.name("t").channel("c"))
        .build()
        .unwrap();
    let mut pubsub = EnhancedPubSub::new(config);
    assert_eq!(
        pubsub.get_channel_stats("c").unwrap_err().message(),
        "Validation failed: Channel 'c' not found"
    );
    let early = pubsub.subscribe(subscriptions.remove("t").unwrap());
    assert_eq!(early.err().unwrap().message(), "Validation failed: Channel 'c' not found");
    pubsub.create_channel(channels.remove("c").unwrap()).unwrap();
    let mut first = pubsub.subscribe(subscriptions.remove("s").unwrap()).unwrap();
    assert_eq!(first.receive(&pubsub, None, 0).unwrap_err().message(), "Channel error: s - No messages available");
    first.state.is_active = false;
    assert_eq!(first.ready().unwrap_err().message(), "Channel error: s - Subscription is inactive");
}

#[test]
fn old_messages_go_first() {
    let policy = MessageRetentionPolicy { max_messages: 3, max_age: Duration::from_millis(10), ..Default::default() };
    let mut messages = vec![stored(0, 1), stored(1, 50), stored(2, 60)];
    store_message(&mut messages, &policy, stored(3, 61), 61);
    let numbers: Vec<u64> = messages.iter().map(|m| m.sequence_number).collect();
    assert_eq!(numbers, vec![2, 3]);
    let policy = MessageRetentionPolicy { max_messages: 2, ..Default::default() };
    store_message(&mut messages, &policy, stored(4, 62), 62);
    let numbers: Vec<u64> = messages.iter().map(|m| m.sequence_number).collect();
    assert_eq!(numbers, vec![3, 4]);
}
