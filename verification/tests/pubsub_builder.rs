//! Settings of a publish/subscribe system.

use dagger::pubsub::pubsub_builder::{
    ChannelBuilder, CleanupStrategy, DeliveryGuarantees, MessageOrdering, PubSubBuilder, RateLimitAction, StartPosition,
    SubscriptionType,
};
use std::time::Duration;

#[test]
fn test_pubsub_builder() {
    let (config, channels, subscriptions) = PubSubBuilder::new()
        .name("test_pubsub")
        .description("A test PubSub system")
        .max_channels(500)
        .max_subscribers_per_channel(50)
        .max_message_size_mb(5)
        .delivery_guarantees(DeliveryGuarantees::ExactlyOnce)
        .ordering(MessageOrdering::Global)
        .retention_policy(|policy| {
            policy
                .max_messages(5000)
                .max_age(Duration::from_secs(3600))
                .cleanup_strategy(CleanupStrategy::OldestFirst)
        })
        .performance(|perf| perf.channel_buffer_size(2000).batch_size(50).worker_threads(8).enable_compression(true))
        .security(|sec| {
            sec.enable_publisher_auth(true)
                .enable_encryption(true)
                .rate_limiting(|rate| rate.max_messages_per_sec(500).action(RateLimitAction::Queue))
        })
        .channel(|ch| {
            ch.name("events")
                .description("Event channel")
                .persistent(true)
                .delivery_guarantees(DeliveryGuarantees::AtLeastOnce)
        })
        .subscription(|sub| {
            sub.name("event_processor")
                .channel("events")
                .subscription_type(SubscriptionType::Shared)
                .start_position(StartPosition::Earliest)
        })
        .build()
        .unwrap();

    assert_eq!(config.name, "test_pubsub");
    assert_eq!(config.max_channels, 500);
    assert_eq!(config.max_message_size_bytes, 5 * 1024 * 1024);
    assert!(matches!(config.delivery_guarantees, DeliveryGuarantees::ExactlyOnce));
    assert!(channels.contains_key("events"));
    assert!(subscriptions.contains_key("event_processor"));
    assert_eq!(subscriptions.get("event_processor").unwrap().channel, "events");
    assert_eq!(config.security.rate_limiting.unwrap().max_messages_per_sec, 500);
    assert_eq!(config.retention_policy.max_messages, 5000);
}

#[test]
fn pubsub_builder_test_validation() {
    let result = PubSubBuilder::new().subscription(|sub| sub.name("test_sub").channel("nonexistent")).build();

    assert!(result.is_err());
    assert_eq!(
        result.err().unwrap().message(),
        "Validation failed: Subscription 'test_sub' references non-existent channel 'nonexistent'"
    );
}

#[test]
fn random_names_begin_as_they_should() {
    let builder = PubSubBuilder::new();
    assert!(builder.config.name.starts_with("pubsub_"));
    assert_eq!(builder.config.name.len(), 43);
    assert_ne!(PubSubBuilder::new().config.name, PubSubBuilder::new().config.name);
    let channel = ChannelBuilder::new();
    assert!(channel.config.name.starts_with("channel_"));
    assert_eq!(channel.config.name.len(), 44);
}

#[test]
fn each_setting_is_checked() {
    let text = |b: PubSubBuilder| b.build().err().unwrap().message();
    assert_eq!(text(PubSubBuilder::named("")), "Configuration error: PubSub name cannot be empty");
    assert_eq!(text(PubSubBuilder::new().max_channels(0)), "Configuration error: max_channels must be greater than 0");
    assert_eq!(
        text(PubSubBuilder::new().max_subscribers_per_channel(0)),
        "Configuration error: max_subscribers_per_channel must be greater than 0"
    );
    assert_eq!(
        text(PubSubBuilder::new().max_message_size_kb(0)),
        "Configuration error: max_message_size_bytes must be greater than 0"
    );
}

#[test]
fn the_context_starts_without_messages() {
    let context = PubSubBuilder::named("p")
        .channels(vec![ChannelBuilder::new().name("a"), ChannelBuilder::new().name("b").retention_policy(|p| p.max_storage_mb(2))])
        .build_execution_context()
        .unwrap();
    assert_eq!(context.channels.len(), 2);
    assert_eq!(context.message_store.len(), 0);
    let kept = context.channels.get("b").unwrap().retention_policy.as_ref().unwrap();
    assert_eq!(kept.max_storage_bytes, 2 * 1024 * 1024);
    assert_eq!(kept.max_messages, 10000);
}
