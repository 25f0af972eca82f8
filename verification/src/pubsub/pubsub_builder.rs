//! Settings of a publish/subscribe system with its channels and subscriptions.

use crate::duration::nanos;
use crate::errors::DaggerError;
use crate::ids::new_uuid;
use crate::string_map::{has_key, lemma_entry, StringMap};
use crate::text::{cat2, cat5, owned};
use crate::value::Value;
use std::time::Duration;
use vstd::prelude::*;

verus! {

/// Settings of a publish/subscribe system.
#[derive(Debug)]
pub struct PubSubConfig {
    pub name: String,
    pub description: Option<String>,
    pub max_channels: usize,
    pub max_subscribers_per_channel: usize,
    pub max_message_size_bytes: usize,
    pub retention_policy: MessageRetentionPolicy,
    pub delivery_guarantees: DeliveryGuarantees,
    pub ordering: MessageOrdering,
    pub performance: PubSubPerformanceConfig,
    pub security: PubSubSecurityConfig,
    pub metadata: StringMap<Value>,
}

/// `name` is `prefix` and 36 characters.
pub open spec fn drawn(name: Seq<char>, prefix: Seq<char>) -> bool {
    exists|id: Seq<char>| id.len() == 36 && name == #[trigger] (prefix + id)
}

/// The usual settings, whatever the name.
pub open spec fn usual_config(c: PubSubConfig) -> bool {
    &&& c.description is None
    &&& c.max_channels == 1000
    &&& c.max_subscribers_per_channel == 100
    &&& c.max_message_size_bytes == 1_048_576
    &&& usual_retention(c.retention_policy)
    &&& c.delivery_guarantees == DeliveryGuarantees::AtLeastOnce
    &&& c.ordering == MessageOrdering::Unordered
    &&& usual_performance(c.performance)
    &&& c.security == no_security()
    &&& c.metadata@ == Map::<Seq<char>, Value>::empty()
}

impl PubSubConfig {
    /// The usual settings under a name.
    pub fn named(name: String) -> (r: Self)
        ensures
            r.name == name,
            usual_config(r),
    {
        PubSubConfig {
            name,
            description: None,
            max_channels: 1000,
            max_subscribers_per_channel: 100,
            max_message_size_bytes: 1_048_576,
            retention_policy: MessageRetentionPolicy::default(),
            delivery_guarantees: DeliveryGuarantees::AtLeastOnce,
            ordering: MessageOrdering::Unordered,
            performance: PubSubPerformanceConfig::default(),
            security: PubSubSecurityConfig::default(),
            metadata: StringMap::new(),
        }
    }

    /// What is wrong with the settings.
    pub open spec fn problem(&self) -> Option<Seq<char>> {
        if self.name@.len() == 0 {
            Some("PubSub name cannot be empty"@)
        } else if self.max_channels == 0 {
            Some("max_channels must be greater than 0"@)
        } else if self.max_subscribers_per_channel == 0 {
            Some("max_subscribers_per_channel must be greater than 0"@)
        } else if self.max_message_size_bytes == 0 {
            Some("max_message_size_bytes must be greater than 0"@)
        } else {
            None
        }
    }

    /// Checks the settings.
    pub fn validate(&self) -> (r: Result<(), DaggerError>)
        ensures
            r is Ok <==> self.problem() is None,
            r matches Err(e) ==> self.problem() is Some && e.is_configuration(self.problem()->0),
    {
        if self.name.as_str().is_empty() {
            return Err(DaggerError::configuration("PubSub name cannot be empty"));
        }
        if self.max_channels == 0 {
            return Err(DaggerError::configuration("max_channels must be greater than 0"));
        }
        if self.max_subscribers_per_channel == 0 {
            return Err(DaggerError::configuration("max_subscribers_per_channel must be greater than 0"));
        }
        if self.max_message_size_bytes == 0 {
            return Err(DaggerError::configuration("max_message_size_bytes must be greater than 0"));
        }
        Ok(())
    }
}

impl Default for PubSubConfig {
    /// The name is `pubsub_` and a random identifier.
    fn default() -> (r: Self)
        ensures
            drawn(r.name@, "pubsub_"@),
            usual_config(r),
    {
        let id = new_uuid();
        PubSubConfig::named(cat2("pubsub_", id.as_str()))
    }
}

/// How long messages are kept.
#[derive(Debug)]
pub struct MessageRetentionPolicy {
    /// How many messages a channel keeps.
    pub max_messages: usize,
    /// For how long a message is kept.
    pub max_age: Duration,
    pub max_storage_bytes: u64,
    pub cleanup_strategy: CleanupStrategy,
}

/// The usual policy.
pub open spec fn usual_retention(p: MessageRetentionPolicy) -> bool {
    &&& p.max_messages == 10000
    &&& nanos(p.max_age) == 86_400_000_000_000
    &&& p.max_storage_bytes == 104_857_600
    &&& p.cleanup_strategy is OldestFirst
}

impl Default for MessageRetentionPolicy {
    fn default() -> (r: Self)
        ensures
            usual_retention(r),
    {
        MessageRetentionPolicy {
            max_messages: 10000,
            max_age: Duration::from_secs(86_400),
            max_storage_bytes: 104_857_600,
            cleanup_strategy: CleanupStrategy::OldestFirst,
        }
    }
}

/// Which messages go first.
#[derive(Debug)]
pub enum CleanupStrategy {
    OldestFirst,
    LowestPriorityFirst,
    LargestFirst,
    /// By a rule of this name.
    Custom(String),
}

/// What is promised of delivery.
#[derive(Debug, Clone, Copy, PartialEq, Eq, Structural)]
pub enum DeliveryGuarantees {
    AtMostOnce,
    AtLeastOnce,
    ExactlyOnce,
}

/// What is promised of the order of messages.
#[derive(Debug, Clone, Copy, PartialEq, Eq, Structural)]
pub enum MessageOrdering {
    /// Nothing.
    Unordered,
    PerPublisher,
    Global,
    /// By the key of a message.
    Partitioned,
}

/// Settings that trade memory for speed.
#[derive(Debug, Clone, Copy)]
pub struct PubSubPerformanceConfig {
    pub channel_buffer_size: usize,
    pub batch_size: usize,
    pub flush_interval: Duration,
    pub worker_threads: usize,
    pub enable_compression: bool,
    /// From which size on messages are compressed.
    pub compression_threshold: usize,
    pub async_persistence: bool,
}

/// The usual settings.
pub open spec fn usual_performance(p: PubSubPerformanceConfig) -> bool {
    &&& p.channel_buffer_size == 1000
    &&& p.batch_size == 100
    &&& nanos(p.flush_interval) == 100_000_000
    &&& p.worker_threads == 4
    &&& !p.enable_compression
    &&& p.compression_threshold == 1024
    &&& p.async_persistence
}

impl Default for PubSubPerformanceConfig {
    fn default() -> (r: Self)
        ensures
            usual_performance(r),
    {
        PubSubPerformanceConfig {
            channel_buffer_size: 1000,
            batch_size: 100,
            flush_interval: Duration::from_millis(100),
            worker_threads: 4,
            enable_compression: false,
            compression_threshold: 1024,
            async_persistence: true,
        }
    }
}

/// Who may do what.
#[derive(Debug)]
pub struct PubSubSecurityConfig {
    pub enable_publisher_auth: bool,
    pub enable_subscriber_auth: bool,
    pub enable_encryption: bool,
    pub enable_acl: bool,
    /// A schema for messages.
    pub message_validation: Option<String>,
    pub rate_limiting: Option<RateLimitConfig>,
}

/// Everybody may do everything.
pub open spec fn no_security() -> PubSubSecurityConfig {
    PubSubSecurityConfig {
        enable_publisher_auth: false,
        enable_subscriber_auth: false,
        enable_encryption: false,
        enable_acl: false,
        message_validation: None,
        rate_limiting: None,
    }
}

impl Default for PubSubSecurityConfig {
    fn default() -> (r: Self)
        ensures
            r == no_security(),
    {
        PubSubSecurityConfig {
            enable_publisher_auth: false,
            enable_subscriber_auth: false,
            enable_encryption: false,
            enable_acl: false,
            message_validation: None,
            rate_limiting: None,
        }
    }
}

/// How much a publisher may send.
#[derive(Debug, Clone, Copy)]
pub struct RateLimitConfig {
    pub max_messages_per_sec: u32,
    pub max_bytes_per_sec: u64,
    pub window_size: Duration,
    pub action: RateLimitAction,
}

/// What becomes of a message that is too much.
#[derive(Debug, Clone, Copy, PartialEq, Eq, Structural)]
pub enum RateLimitAction {
    Drop,
    Queue,
    Reject,
}

/// A channel.
#[derive(Debug)]
pub struct ChannelConfig {
    pub name: String,
    pub description: Option<String>,
    /// How long messages are kept, where that differs from the system.
    pub retention_policy: Option<MessageRetentionPolicy>,
    /// What is promised of delivery, where that differs from the system.
    pub delivery_guarantees: Option<DeliveryGuarantees>,
    pub persistent: bool,
    pub message_schema: Option<Value>,
    pub metadata: StringMap<Value>,
}

impl ChannelConfig {
    /// Whether nothing but the name was set.
    pub open spec fn is_plain(&self) -> bool {
        &&& self.description is None
        &&& self.retention_policy is None
        &&& self.delivery_guarantees is None
        &&& self.persistent
        &&& self.message_schema is None
        &&& self.metadata@ == Map::<Seq<char>, Value>::empty()
    }

    /// A channel that keeps its messages.
    pub fn new(name: String) -> (r: Self)
        ensures
            r.name == name,
            r.is_plain(),
    {
        ChannelConfig {
            name,
            description: None,
            retention_policy: None,
            delivery_guarantees: None,
            persistent: true,
            message_schema: None,
            metadata: StringMap::new(),
        }
    }
}

/// A subscription to a channel.
#[derive(Debug)]
pub struct SubscriptionConfig {
    pub name: String,
    pub channel: String,
    pub filter: Option<String>,
    pub subscription_type: SubscriptionType,
    pub start_position: StartPosition,
    pub max_unacked_messages: usize,
    pub ack_timeout: Duration,
    pub metadata: StringMap<Value>,
}

/// Who of several consumers gets a message.
#[derive(Debug, Clone, Copy, PartialEq, Eq, Structural)]
pub enum SubscriptionType {
    /// There is only one.
    Exclusive,
    /// They take turns.
    Shared,
    /// One, and another where it fails.
    Failover,
    /// The one that gets messages with this key.
    KeyShared,
}

/// Where a subscription starts.
#[derive(Debug)]
pub enum StartPosition {
    Earliest,
    Latest,
    MessageId(String),
    Timestamp(u64),
}

/// A message. The payload is the JSON text that is sent.
#[derive(Debug)]
pub struct Message {
    pub id: String,
    pub key: Option<String>,
    pub payload: String,
    pub headers: StringMap<String>,
    /// In milliseconds since the Unix epoch; zero where it was not set.
    pub timestamp: u64,
    pub priority: Option<u8>,
    pub ttl: Option<Duration>,
    pub publisher_id: String,
    pub metadata: StringMap<Value>,
}

/// Where a publish/subscribe system starts: its settings, and no messages.
#[derive(Debug)]
pub struct PubSubExecutionContext {
    pub config: PubSubConfig,
    pub channels: StringMap<ChannelConfig>,
    pub subscriptions: StringMap<SubscriptionConfig>,
    pub message_store: StringMap<Vec<Message>>,
}

/// Puts a publish/subscribe system together.
#[derive(Debug)]
pub struct PubSubBuilder {
    pub config: PubSubConfig,
    pub channels: StringMap<ChannelConfig>,
    pub subscriptions: StringMap<SubscriptionConfig>,
}

impl Default for PubSubBuilder {
    fn default() -> (r: Self)
        ensures
            drawn(r.config.name@, "pubsub_"@),
            usual_config(r.config),
            r.channels@ == Map::<Seq<char>, ChannelConfig>::empty(),
            r.subscriptions@ == Map::<Seq<char>, SubscriptionConfig>::empty(),
    {
        PubSubBuilder::new()
    }
}

/// Whether the subscription at `i` is to a channel that there is none.
pub open spec fn dangling(
    subscriptions: Seq<(String, SubscriptionConfig)>,
    channels: Map<Seq<char>, ChannelConfig>,
    i: int,
) -> bool {
    0 <= i < subscriptions.len() && !channels.contains_key(subscriptions[i].1.channel@)
}

/// Whether the subscription at `i` is the first to a channel that there is none.
pub open spec fn first_dangling(
    subscriptions: Seq<(String, SubscriptionConfig)>,
    channels: Map<Seq<char>, ChannelConfig>,
    i: int,
) -> bool {
    dangling(subscriptions, channels, i) && forall|j: int| 0 <= j < i ==> !#[trigger] dangling(subscriptions, channels, j)
}

/// What is said of a subscription to a channel that there is none.
pub open spec fn dangling_text(s: SubscriptionConfig) -> Seq<char> {
    "Subscription '"@ + s.name@ + "' references non-existent channel '"@ + s.channel@ + "'"@
}

/// The channels with those of the first `n` builders added in order.
pub open spec fn with_channels(m: Map<Seq<char>, ChannelConfig>, v: Seq<ChannelBuilder>, n: int) -> Map<
    Seq<char>,
    ChannelConfig,
>
    decreases n,
{
    if n <= 0 {
        m
    } else {
        with_channels(m, v, n - 1).insert(v[n - 1].config.name@, v[n - 1].config)
    }
}

impl PubSubBuilder {
    /// Starts from the usual settings under a random name.
    pub fn new() -> (r: Self)
        ensures
            drawn(r.config.name@, "pubsub_"@),
            usual_config(r.config),
            r.channels@ == Map::<Seq<char>, ChannelConfig>::empty(),
            r.subscriptions@ == Map::<Seq<char>, SubscriptionConfig>::empty(),
    {
        PubSubBuilder { config: PubSubConfig::default(), channels: StringMap::new(), subscriptions: StringMap::new() }
    }

    /// Starts from the usual settings under a name.
    pub fn named(name: &str) -> (r: Self)
        ensures
            r.config.name@ == name@,
            usual_config(r.config),
            r.channels@ == Map::<Seq<char>, ChannelConfig>::empty(),
            r.subscriptions@ == Map::<Seq<char>, SubscriptionConfig>::empty(),
    {
        PubSubBuilder {
            config: PubSubConfig::named(owned(name)),
            channels: StringMap::new(),
            subscriptions: StringMap::new(),
        }
    }

    /// Sets the name.
    pub fn name(self, name: &str) -> (r: Self)
        ensures
            r == (PubSubBuilder { config: PubSubConfig { name: r.config.name, ..self.config }, ..self }),
            r.config.name@ == name@,
    {
        let mut r = self;
        r.config.name = owned(name);
        r
    }

    /// Sets the description.
    pub fn description(self, description: &str) -> (r: Self)
        ensures
            r == (PubSubBuilder { config: PubSubConfig { description: r.config.description, ..self.config }, ..self }),
            r.config.description matches Some(t) && t@ == description@,
    {
        let mut r = self;
        r.config.description = Some(owned(description));
        r
    }

    /// Sets how many channels there may be.
    pub fn max_channels(self, count: usize) -> (r: Self)
        ensures
            r == (PubSubBuilder { config: PubSubConfig { max_channels: count, ..self.config }, ..self }),
    {
        let mut r = self;
        r.config.max_channels = count;
        r
    }

    /// Sets how many subscriptions a channel may have.
    pub fn max_subscribers_per_channel(self, count: usize) -> (r: Self)
        ensures
            r == (PubSubBuilder { config: PubSubConfig { max_subscribers_per_channel: count, ..self.config }, ..self }),
    {
        let mut r = self;
        r.config.max_subscribers_per_channel = count;
        r
    }

    /// Sets how large a message may be.
    pub fn max_message_size_bytes(self, bytes: usize) -> (r: Self)
        ensures
            r == (PubSubBuilder { config: PubSubConfig { max_message_size_bytes: bytes, ..self.config }, ..self }),
    {
        let mut r = self;
        r.config.max_message_size_bytes = bytes;
        r
    }

    /// Sets how large a message may be, in units of 1,024 bytes.
    pub fn max_message_size_kb(self, kb: usize) -> (r: Self)
        requires
            kb * 1_024 <= usize::MAX,
        ensures
            r == (PubSubBuilder { config: PubSubConfig { max_message_size_bytes: (kb * 1_024) as usize, ..self.config }, ..self }),
    {
        let mut r = self;
        r.config.max_message_size_bytes = kb * 1_024;
        r
    }

    /// Sets how large a message may be, in units of 1,048,576 bytes.
    pub fn max_message_size_mb(self, mb: usize) -> (r: Self)
        requires
            mb * 1_048_576 <= usize::MAX,
        ensures
            r == (PubSubBuilder { config: PubSubConfig { max_message_size_bytes: (mb * 1_048_576) as usize, ..self.config }, ..self }),
    {
        let mut r = self;
        r.config.max_message_size_bytes = mb * 1_048_576;
        r
    }

    /// Sets what is promised of delivery.
    pub fn delivery_guarantees(self, guarantees: DeliveryGuarantees) -> (r: Self)
        ensures
            r == (PubSubBuilder { config: PubSubConfig { delivery_guarantees: guarantees, ..self.config }, ..self }),
    {
        let mut r = self;
        r.config.delivery_guarantees = guarantees;
        r
    }

    /// Sets what is promised of the order of messages.
    pub fn ordering(self, ordering: MessageOrdering) -> (r: Self)
        ensures
            r == (PubSubBuilder { config: PubSubConfig { ordering, ..self.config }, ..self }),
    {
        let mut r = self;
        r.config.ordering = ordering;
        r
    }

    /// Adds a remark under `key`.
    pub fn metadata(self, key: &str, value: Value) -> (r: Self)
        ensures
            r == (PubSubBuilder { config: PubSubConfig { metadata: r.config.metadata, ..self.config }, ..self }),
            r.config.metadata@ == self.config.metadata@.insert(key@, value),
    {
        let mut r = self;
        r.config.metadata.insert(owned(key), value);
        r
    }

    /// Changes how long messages are kept as `configure` does.
    pub fn retention_policy<F: FnOnce(RetentionPolicyBuilder) -> RetentionPolicyBuilder>(self, configure: F) -> (r: Self)
        requires
            call_requires(configure, (RetentionPolicyBuilder { policy: self.config.retention_policy },)),
        ensures
            r == (PubSubBuilder { config: PubSubConfig { retention_policy: r.config.retention_policy, ..self.config }, ..self }),
            call_ensures(
                configure,
                (RetentionPolicyBuilder { policy: self.config.retention_policy },),
                RetentionPolicyBuilder { policy: r.config.retention_policy },
            ),
    {
        let mut r = self;
        let changed = configure(RetentionPolicyBuilder { policy: r.config.retention_policy });
        r.config.retention_policy = changed.policy;
        r
    }

    /// Changes the settings for speed as `configure` does.
    pub fn performance<F: FnOnce(PubSubPerformanceConfigBuilder) -> PubSubPerformanceConfigBuilder>(self, configure: F) -> (r: Self)
        requires
            call_requires(configure, (PubSubPerformanceConfigBuilder { config: self.config.performance },)),
        ensures
            r == (PubSubBuilder { config: PubSubConfig { performance: r.config.performance, ..self.config }, ..self }),
            call_ensures(
                configure,
                (PubSubPerformanceConfigBuilder { config: self.config.performance },),
                PubSubPerformanceConfigBuilder { config: r.config.performance },
            ),
    {
        let mut r = self;
        let changed = configure(PubSubPerformanceConfigBuilder { config: r.config.performance });
        r.config.performance = changed.config;
        r
    }

    /// Changes who may do what as `configure` does.
    pub fn security<F: FnOnce(PubSubSecurityConfigBuilder) -> PubSubSecurityConfigBuilder>(self, configure: F) -> (r: Self)
        requires
            call_requires(configure, (PubSubSecurityConfigBuilder { config: self.config.security },)),
        ensures
            r == (PubSubBuilder { config: PubSubConfig { security: r.config.security, ..self.config }, ..self }),
            call_ensures(
                configure,
                (PubSubSecurityConfigBuilder { config: self.config.security },),
                PubSubSecurityConfigBuilder { config: r.config.security },
            ),
    {
        let mut r = self;
        let changed = configure(PubSubSecurityConfigBuilder { config: r.config.security });
        r.config.security = changed.config;
        r
    }

    /// Adds a channel; one that had the name is replaced.
    pub fn channel<F: FnOnce(ChannelBuilder) -> ChannelBuilder>(self, configure: F) -> (r: Self)
        requires
            forall|b: ChannelBuilder| is_fresh_channel(b) ==> #[trigger] call_requires(configure, (b,)),
        ensures
            exists|b: ChannelBuilder, c: ChannelBuilder|
                is_fresh_channel(b) && #[trigger] call_ensures(configure, (b,), c) && r.channels@ == self.channels@.insert(
                    c.config.name@,
                    c.config,
                ),
            r == (PubSubBuilder { channels: r.channels, ..self }),
    {
        let builder = ChannelBuilder::new();
        let ghost b = builder;
        let built = configure(builder);
        let ghost c = built;
        let mut r = self;
        r.channels.insert(built.config.name.clone(), built.config);
        proof {
            assert(call_ensures(configure, (b,), c));
        }
        r
    }

    /// Adds a subscription; one that had the name is replaced.
    pub fn subscription<F: FnOnce(SubscriptionBuilder) -> SubscriptionBuilder>(self, configure: F) -> (r: Self)
        requires
            forall|b: SubscriptionBuilder| is_fresh_subscription(b) ==> #[trigger] call_requires(configure, (b,)),
        ensures
            exists|b: SubscriptionBuilder, c: SubscriptionBuilder|
                is_fresh_subscription(b) && #[trigger] call_ensures(configure, (b,), c) && r.subscriptions@ == self.subscriptions@.insert(
                    c.config.name@,
                    c.config,
                ),
            r == (PubSubBuilder { subscriptions: r.subscriptions, ..self }),
    {
        let builder = SubscriptionBuilder::new();
        let ghost b = builder;
        let built = configure(builder);
        let ghost c = built;
        let mut r = self;
        r.subscriptions.insert(built.config.name.clone(), built.config);
        proof {
            assert(call_ensures(configure, (b,), c));
        }
        r
    }

    /// Adds channels in order; those that had their names are replaced.
    pub fn channels(self, channels: Vec<ChannelBuilder>) -> (r: Self)
        ensures
            r.channels@ == with_channels(self.channels@, channels@, channels@.len() as int),
            r == (PubSubBuilder { channels: r.channels, ..self }),
    {
        let ghost all = channels@;
        let ghost before = self.channels@;
        let mut r = self;
        let mut rest = channels;
        let ghost mut i: int = 0;
        proof {
            assert(all.skip(0) =~= all);
        }
        while rest.len() > 0
            invariant
                0 <= i <= all.len(),
                rest@ == all.skip(i),
                r == (PubSubBuilder { channels: r.channels, ..self }),
                r.channels@ == with_channels(before, all, i),
            decreases rest.len(),
        {
            proof {
                assert(all.skip(i + 1) =~= rest@.remove(0));
                assert(rest@[0] == all[i]);
            }
            let built = rest.remove(0);
            r.channels.insert(built.config.name.clone(), built.config);
            proof {
                i = i + 1;
            }
        }
        r
    }

    /// Whether the settings are in order and every subscription is to a channel that there is.
    pub open spec fn is_valid(&self) -> bool {
        self.config.problem() is None && forall|i: int|
            0 <= i < self.subscriptions.pairs().len() ==> !#[trigger] dangling(
                self.subscriptions.pairs(),
                self.channels@,
                i,
            )
    }

    /// What is said where [`PubSubBuilder::is_valid`] is not the case.
    pub open spec fn is_refusal(&self, e: DaggerError) -> bool {
        if self.config.problem() is Some {
            e.is_configuration(self.config.problem()->0)
        } else {
            exists|i: int|
                #[trigger] first_dangling(self.subscriptions.pairs(), self.channels@, i) && e.is_validation(
                    dangling_text(self.subscriptions.pairs()[i].1),
                )
        }
    }

    /// Checks the settings and that every subscription is to a channel that there is.
    pub fn validate(&self) -> (r: Result<(), DaggerError>)
        ensures
            r is Ok <==> self.is_valid(),
            r matches Err(e) ==> self.is_refusal(e),
    {
        match self.config.validate() {
            Ok(()) => {},
            Err(e) => {
                return Err(e);
            },
        }
        let n: usize = self.subscriptions.len();
        let ghost pairs = self.subscriptions.pairs();
        let mut i: usize = 0;
        while i < n
            invariant
                i <= n,
                n == pairs.len(),
                pairs == self.subscriptions.pairs(),
                self.config.problem() is None,
                forall|j: int| 0 <= j < i ==> !#[trigger] dangling(pairs, self.channels@, j),
            decreases n - i,
        {
            let s = self.subscriptions.value_at(i);
            if !self.channels.contains_key(s.channel.as_str()) {
                proof {
                    assert(dangling(pairs, self.channels@, i as int));
                    assert(first_dangling(pairs, self.channels@, i as int));
                }
                let text = cat5(
                    "Subscription '",
                    s.name.as_str(),
                    "' references non-existent channel '",
                    s.channel.as_str(),
                    "'",
                );
                return Err(DaggerError::validation(text.as_str()));
            }
            proof {
                assert(!dangling(pairs, self.channels@, i as int));
            }
            i = i + 1;
        }
        Ok(())
    }

    /// The settings, channels and subscriptions, where they are in order.
    pub fn build(self) -> (r: Result<
        (PubSubConfig, StringMap<ChannelConfig>, StringMap<SubscriptionConfig>),
        DaggerError,
    >)
        ensures
            r is Ok <==> self.is_valid(),
            r matches Ok(t) ==> t == (self.config, self.channels, self.subscriptions),
            r matches Err(e) ==> self.is_refusal(e),
    {
        match self.validate() {
            Ok(()) => Ok((self.config, self.channels, self.subscriptions)),
            Err(e) => Err(e),
        }
    }

    /// Where the system starts, where the settings are in order.
    pub fn build_execution_context(self) -> (r: Result<PubSubExecutionContext, DaggerError>)
        ensures
            r is Ok <==> self.is_valid(),
            r matches Ok(c) ==> {
                &&& c.config == self.config
                &&& c.channels == self.channels
                &&& c.subscriptions == self.subscriptions
                &&& c.message_store@ == Map::<Seq<char>, Vec<Message>>::empty()
            },
            r matches Err(e) ==> self.is_refusal(e),
    {
        match self.build() {
            Ok((config, channels, subscriptions)) => Ok(
                PubSubExecutionContext { config, channels, subscriptions, message_store: StringMap::new() },
            ),
            Err(e) => Err(e),
        }
    }
}

/// In a system that was built, every subscription is to a channel of the system.
pub proof fn built_subscriptions_have_channels(b: PubSubBuilder, name: Seq<char>)
    requires
        b.is_valid(),
        b.subscriptions.wf(),
        b.subscriptions@.contains_key(name),
    ensures
        b.channels@.contains_key(b.subscriptions@[name].channel@),
{
    let pairs = b.subscriptions.pairs();
    assert(has_key(pairs, name));
    let i = choose|i: int| 0 <= i < pairs.len() && (#[trigger] pairs[i]).0@ == name;
    lemma_entry(pairs, i);
    assert(!dangling(pairs, b.channels@, i));
}

/// Changes how long messages are kept.
#[derive(Debug)]
pub struct RetentionPolicyBuilder {
    pub policy: MessageRetentionPolicy,
}

impl RetentionPolicyBuilder {
    /// Sets how many messages a channel keeps.
    pub fn max_messages(self, count: usize) -> (r: Self)
        ensures
            r.policy == (MessageRetentionPolicy { max_messages: count, ..self.policy }),
    {
        let mut policy = self.policy;
        policy.max_messages = count;
        RetentionPolicyBuilder { policy }
    }

    /// Sets for how long a message is kept.
    pub fn max_age(self, duration: Duration) -> (r: Self)
        ensures
            r.policy == (MessageRetentionPolicy { max_age: duration, ..self.policy }),
    {
        let mut policy = self.policy;
        policy.max_age = duration;
        RetentionPolicyBuilder { policy }
    }

    /// Sets how much memory messages may take.
    pub fn max_storage_bytes(self, bytes: u64) -> (r: Self)
        ensures
            r.policy == (MessageRetentionPolicy { max_storage_bytes: bytes, ..self.policy }),
    {
        let mut policy = self.policy;
        policy.max_storage_bytes = bytes;
        RetentionPolicyBuilder { policy }
    }

    /// Sets how much memory messages may take, in units of 1,048,576 bytes.
    pub fn max_storage_mb(self, mb: u64) -> (r: Self)
        requires
            mb * 1_048_576 <= u64::MAX,
        ensures
            r.policy == (MessageRetentionPolicy { max_storage_bytes: (mb * 1_048_576) as u64, ..self.policy }),
    {
        let mut policy = self.policy;
        policy.max_storage_bytes = mb * 1_048_576;
        RetentionPolicyBuilder { policy }
    }

    /// Sets which messages go first.
    pub fn cleanup_strategy(self, strategy: CleanupStrategy) -> (r: Self)
        ensures
            r.policy == (MessageRetentionPolicy { cleanup_strategy: strategy, ..self.policy }),
    {
        let mut policy = self.policy;
        policy.cleanup_strategy = strategy;
        RetentionPolicyBuilder { policy }
    }
}

/// Changes the settings for speed.
#[derive(Debug)]
pub struct PubSubPerformanceConfigBuilder {
    pub config: PubSubPerformanceConfig,
}

impl PubSubPerformanceConfigBuilder {
    /// Sets how many messages wait in a channel.
    pub fn channel_buffer_size(self, size: usize) -> (r: Self)
        ensures
            r.config == (PubSubPerformanceConfig { channel_buffer_size: size, ..self.config }),
    {
        let mut config = self.config;
        config.channel_buffer_size = size;
        PubSubPerformanceConfigBuilder { config }
    }

    /// Sets how many messages are handled at once.
    pub fn batch_size(self, size: usize) -> (r: Self)
        ensures
            r.config == (PubSubPerformanceConfig { batch_size: size, ..self.config }),
    {
        let mut config = self.config;
        config.batch_size = size;
        PubSubPerformanceConfigBuilder { config }
    }

    /// Sets how often messages are handled at the latest.
    pub fn flush_interval(self, interval: Duration) -> (r: Self)
        ensures
            r.config == (PubSubPerformanceConfig { flush_interval: interval, ..self.config }),
    {
        let mut config = self.config;
        config.flush_interval = interval;
        PubSubPerformanceConfigBuilder { config }
    }

    /// Sets how many threads handle messages.
    pub fn worker_threads(self, threads: usize) -> (r: Self)
        ensures
            r.config == (PubSubPerformanceConfig { worker_threads: threads, ..self.config }),
    {
        let mut config = self.config;
        config.worker_threads = threads;
        PubSubPerformanceConfigBuilder { config }
    }

    /// Sets whether messages are compressed.
    pub fn enable_compression(self, enabled: bool) -> (r: Self)
        ensures
            r.config == (PubSubPerformanceConfig { enable_compression: enabled, ..self.config }),
    {
        let mut config = self.config;
        config.enable_compression = enabled;
        PubSubPerformanceConfigBuilder { config }
    }

    /// Sets from which size on messages are compressed.
    pub fn compression_threshold(self, bytes: usize) -> (r: Self)
        ensures
            r.config == (PubSubPerformanceConfig { compression_threshold: bytes, ..self.config }),
    {
        let mut config = self.config;
        config.compression_threshold = bytes;
        PubSubPerformanceConfigBuilder { config }
    }

    /// Sets whether messages are written in the background.
    pub fn async_persistence(self, enabled: bool) -> (r: Self)
        ensures
            r.config == (PubSubPerformanceConfig { async_persistence: enabled, ..self.config }),
    {
        let mut config = self.config;
        config.async_persistence = enabled;
        PubSubPerformanceConfigBuilder { config }
    }
}

/// Changes who may do what.
#[derive(Debug)]
pub struct PubSubSecurityConfigBuilder {
    pub config: PubSubSecurityConfig,
}

impl PubSubSecurityConfigBuilder {
    /// Sets whether publishers must say who they are.
    pub fn enable_publisher_auth(self, enabled: bool) -> (r: Self)
        ensures
            r.config == (PubSubSecurityConfig { enable_publisher_auth: enabled, ..self.config }),
    {
        let mut config = self.config;
        config.enable_publisher_auth = enabled;
        PubSubSecurityConfigBuilder { config }
    }

    /// Sets whether subscribers must say who they are.
    pub fn enable_subscriber_auth(self, enabled: bool) -> (r: Self)
        ensures
            r.config == (PubSubSecurityConfig { enable_subscriber_auth: enabled, ..self.config }),
    {
        let mut config = self.config;
        config.enable_subscriber_auth = enabled;
        PubSubSecurityConfigBuilder { config }
    }

    /// Sets whether messages are encrypted.
    pub fn enable_encryption(self, enabled: bool) -> (r: Self)
        ensures
            r.config == (PubSubSecurityConfig { enable_encryption: enabled, ..self.config }),
    {
        let mut config = self.config;
        config.enable_encryption = enabled;
        PubSubSecurityConfigBuilder { config }
    }

    /// Sets whether there are access control lists.
    pub fn enable_acl(self, enabled: bool) -> (r: Self)
        ensures
            r.config == (PubSubSecurityConfig { enable_acl: enabled, ..self.config }),
    {
        let mut config = self.config;
        config.enable_acl = enabled;
        PubSubSecurityConfigBuilder { config }
    }

    /// Sets a schema for messages.
    pub fn message_validation(self, schema: &str) -> (r: Self)
        ensures
            r.config == (PubSubSecurityConfig { message_validation: r.config.message_validation, ..self.config }),
            r.config.message_validation matches Some(t) && t@ == schema@,
    {
        let mut config = self.config;
        config.message_validation = Some(owned(schema));
        PubSubSecurityConfigBuilder { config }
    }

    /// Limits publishers as `configure` does.
    pub fn rate_limiting<F: FnOnce(RateLimitConfigBuilder) -> RateLimitConfigBuilder>(self, configure: F) -> (r: Self)
        requires
            forall|b: RateLimitConfigBuilder| usual_rate(b.config) ==> #[trigger] call_requires(configure, (b,)),
        ensures
            exists|b: RateLimitConfigBuilder, c: RateLimitConfigBuilder|
                usual_rate(b.config) && #[trigger] call_ensures(configure, (b,), c) && r.config == (PubSubSecurityConfig {
                    rate_limiting: Some(c.config),
                    ..self.config
                }),
    {
        let builder = RateLimitConfigBuilder::new();
        let ghost b = builder;
        let changed = configure(builder);
        let ghost c = changed;
        let mut config = self.config;
        config.rate_limiting = Some(changed.config);
        proof {
            assert(call_ensures(configure, (b,), c));
        }
        PubSubSecurityConfigBuilder { config }
    }
}

/// The usual limits for a publisher.
pub open spec fn usual_rate(c: RateLimitConfig) -> bool {
    &&& c.max_messages_per_sec == 1000
    &&& c.max_bytes_per_sec == 1_048_576
    &&& nanos(c.window_size) == 1_000_000_000
    &&& c.action == RateLimitAction::Queue
}

/// Changes how much a publisher may send.
#[derive(Debug)]
pub struct RateLimitConfigBuilder {
    pub config: RateLimitConfig,
}

impl RateLimitConfigBuilder {
    /// Starts from the usual limits.
    pub fn new() -> (r: Self)
        ensures
            usual_rate(r.config),
    {
        RateLimitConfigBuilder {
            config: RateLimitConfig {
                max_messages_per_sec: 1000,
                max_bytes_per_sec: 1_048_576,
                window_size: Duration::from_secs(1),
                action: RateLimitAction::Queue,
            },
        }
    }

    /// Sets how many messages may be sent within the window.
    pub fn max_messages_per_sec(self, count: u32) -> (r: Self)
        ensures
            r.config == (RateLimitConfig { max_messages_per_sec: count, ..self.config }),
    {
        let mut config = self.config;
        config.max_messages_per_sec = count;
        RateLimitConfigBuilder { config }
    }

    /// Sets how much may be sent within the window.
    pub fn max_bytes_per_sec(self, bytes: u64) -> (r: Self)
        ensures
            r.config == (RateLimitConfig { max_bytes_per_sec: bytes, ..self.config }),
    {
        let mut config = self.config;
        config.max_bytes_per_sec = bytes;
        RateLimitConfigBuilder { config }
    }

    /// Sets how long the window is.
    pub fn window_size(self, duration: Duration) -> (r: Self)
        ensures
            r.config == (RateLimitConfig { window_size: duration, ..self.config }),
    {
        let mut config = self.config;
        config.window_size = duration;
        RateLimitConfigBuilder { config }
    }

    /// Sets what becomes of a message that is too much.
    pub fn action(self, action: RateLimitAction) -> (r: Self)
        ensures
            r.config == (RateLimitConfig { action, ..self.config }),
    {
        let mut config = self.config;
        config.action = action;
        RateLimitConfigBuilder { config }
    }
}

/// A channel with a random name and nothing else set.
pub open spec fn is_fresh_channel(b: ChannelBuilder) -> bool {
    drawn(b.config.name@, "channel_"@) && b.config.is_plain()
}

/// Describes a channel.
#[derive(Debug)]
pub struct ChannelBuilder {
    pub config: ChannelConfig,
}

impl ChannelBuilder {
    /// A channel with a random name.
    pub fn new() -> (r: Self)
        ensures
            is_fresh_channel(r),
    {
        let id = new_uuid();
        ChannelBuilder { config: ChannelConfig::new(cat2("channel_", id.as_str())) }
    }

    /// Sets the name.
    pub fn name(self, name: &str) -> (r: Self)
        ensures
            r.config == (ChannelConfig { name: r.config.name, ..self.config }),
            r.config.name@ == name@,
    {
        let mut config = self.config;
        config.name = owned(name);
        ChannelBuilder { config }
    }

    /// Sets the description.
    pub fn description(self, description: &str) -> (r: Self)
        ensures
            r.config == (ChannelConfig { description: r.config.description, ..self.config }),
            r.config.description matches Some(t) && t@ == description@,
    {
        let mut config = self.config;
        config.description = Some(owned(description));
        ChannelBuilder { config }
    }

    /// Sets whether messages are kept.
    pub fn persistent(self, persistent: bool) -> (r: Self)
        ensures
            r.config == (ChannelConfig { persistent, ..self.config }),
    {
        let mut config = self.config;
        config.persistent = persistent;
        ChannelBuilder { config }
    }

    /// Sets how long messages are kept: as long as usual, but for what `configure` changes.
    pub fn retention_policy<F: FnOnce(RetentionPolicyBuilder) -> RetentionPolicyBuilder>(self, configure: F) -> (r: Self)
        requires
            forall|b: RetentionPolicyBuilder| usual_retention(b.policy) ==> #[trigger] call_requires(configure, (b,)),
        ensures
            exists|b: RetentionPolicyBuilder, c: RetentionPolicyBuilder|
                usual_retention(b.policy) && #[trigger] call_ensures(configure, (b,), c) && r.config == (ChannelConfig {
                    retention_policy: Some(c.policy),
                    ..self.config
                }),
    {
        let builder = RetentionPolicyBuilder { policy: MessageRetentionPolicy::default() };
        let ghost b = builder;
        let changed = configure(builder);
        let ghost c = changed;
        let mut config = self.config;
        config.retention_policy = Some(changed.policy);
        proof {
            assert(call_ensures(configure, (b,), c));
        }
        ChannelBuilder { config }
    }

    /// Sets what is promised of delivery.
    pub fn delivery_guarantees(self, guarantees: DeliveryGuarantees) -> (r: Self)
        ensures
            r.config == (ChannelConfig { delivery_guarantees: Some(guarantees), ..self.config }),
    {
        let mut config = self.config;
        config.delivery_guarantees = Some(guarantees);
        ChannelBuilder { config }
    }

    /// Sets a schema for messages.
    pub fn message_schema(self, schema: Value) -> (r: Self)
        ensures
            r.config == (ChannelConfig { message_schema: Some(schema), ..self.config }),
    {
        let mut config = self.config;
        config.message_schema = Some(schema);
        ChannelBuilder { config }
    }

    /// Adds a remark under `key`.
    pub fn metadata(self, key: &str, value: Value) -> (r: Self)
        ensures
            r.config == (ChannelConfig { metadata: r.config.metadata, ..self.config }),
            r.config.metadata@ == self.config.metadata@.insert(key@, value),
    {
        let mut config = self.config;
        config.metadata.insert(owned(key), value);
        ChannelBuilder { config }
    }
}

/// A subscription with a random name and nothing else set.
pub open spec fn is_fresh_subscription(b: SubscriptionBuilder) -> bool {
    &&& drawn(b.config.name@, "subscription_"@)
    &&& b.config.channel@.len() == 0
    &&& b.config.filter is None
    &&& b.config.subscription_type == SubscriptionType::Shared
    &&& b.config.start_position is Latest
    &&& b.config.max_unacked_messages == 1000
    &&& nanos(b.config.ack_timeout) == 30_000_000_000
    &&& b.config.metadata@ == Map::<Seq<char>, Value>::empty()
}

/// Describes a subscription.
#[derive(Debug)]
pub struct SubscriptionBuilder {
    pub config: SubscriptionConfig,
}

impl SubscriptionBuilder {
    /// A subscription with a random name.
    pub fn new() -> (r: Self)
        ensures
            is_fresh_subscription(r),
    {
        let id = new_uuid();
        SubscriptionBuilder {
            config: SubscriptionConfig {
                name: cat2("subscription_", id.as_str()),
                channel: String::new(),
                filter: None,
                subscription_type: SubscriptionType::Shared,
                start_position: StartPosition::Latest,
                max_unacked_messages: 1000,
                ack_timeout: Duration::from_secs(30),
                metadata: StringMap::new(),
            },
        }
    }

    /// Sets the name.
    pub fn name(self, name: &str) -> (r: Self)
        ensures
            r.config == (SubscriptionConfig { name: r.config.name, ..self.config }),
            r.config.name@ == name@,
    {
        let mut config = self.config;
        config.name = owned(name);
        SubscriptionBuilder { config }
    }

    /// Sets the channel.
    pub fn channel(self, channel: &str) -> (r: Self)
        ensures
            r.config == (SubscriptionConfig { channel: r.config.channel, ..self.config }),
            r.config.channel@ == channel@,
    {
        let mut config = self.config;
        config.channel = owned(channel);
        SubscriptionBuilder { config }
    }

    /// Sets which messages are wanted.
    pub fn filter(self, filter: &str) -> (r: Self)
        ensures
            r.config == (SubscriptionConfig { filter: r.config.filter, ..self.config }),
            r.config.filter matches Some(t) && t@ == filter@,
    {
        let mut config = self.config;
        config.filter = Some(owned(filter));
        SubscriptionBuilder { config }
    }

    /// Sets who of several consumers gets a message.
    pub fn subscription_type(self, sub_type: SubscriptionType) -> (r: Self)
        ensures
            r.config == (SubscriptionConfig { subscription_type: sub_type, ..self.config }),
    {
        let mut config = self.config;
        config.subscription_type = sub_type;
        SubscriptionBuilder { config }
    }

    /// Sets where the subscription starts.
    pub fn start_position(self, position: StartPosition) -> (r: Self)
        ensures
            r.config == (SubscriptionConfig { start_position: position, ..self.config }),
    {
        let mut config = self.config;
        config.start_position = position;
        SubscriptionBuilder { config }
    }

    /// Sets how many messages may be unacknowledged.
    pub fn max_unacked_messages(self, count: usize) -> (r: Self)
        ensures
            r.config == (SubscriptionConfig { max_unacked_messages: count, ..self.config }),
    {
        let mut config = self.config;
        config.max_unacked_messages = count;
        SubscriptionBuilder { config }
    }

    /// Sets how long an acknowledgement may take.
    pub fn ack_timeout(self, timeout: Duration) -> (r: Self)
        ensures
            r.config == (SubscriptionConfig { ack_timeout: timeout, ..self.config }),
    {
        let mut config = self.config;
        config.ack_timeout = timeout;
        SubscriptionBuilder { config }
    }

    /// Adds a remark under `key`.
    pub fn metadata(self, key: &str, value: Value) -> (r: Self)
        ensures
            r.config == (SubscriptionConfig { metadata: r.config.metadata, ..self.config }),
            r.config.metadata@ == self.config.metadata@.insert(key@, value),
    {
        let mut config = self.config;
        config.metadata.insert(owned(key), value);
        SubscriptionBuilder { config }
    }
}

/// The settings of a system are in order where it has a name and its limits are above zero;
/// what is wrong is named.
pub proof fn system_settings_are_checked(c: &PubSubConfig, r: Result<(), DaggerError>)
    requires
        call_ensures(PubSubConfig::validate, (c,), r),
    ensures
        r is Ok <==> c.name@.len() > 0 && c.max_channels > 0 && c.max_subscribers_per_channel > 0 && c.max_message_size_bytes
            > 0,
        c.name@.len() == 0 ==> (r matches Err(DaggerError::Configuration { message, .. }) && message@
            == "PubSub name cannot be empty"@),
        c.name@.len() > 0 && c.max_channels == 0 ==> (r matches Err(DaggerError::Configuration { message, .. }) && message@
            == "max_channels must be greater than 0"@),
        c.name@.len() > 0 && c.max_channels > 0 && c.max_subscribers_per_channel == 0 ==> (r matches Err(
            DaggerError::Configuration { message, .. },
        ) && message@ == "max_subscribers_per_channel must be greater than 0"@),
        c.name@.len() > 0 && c.max_channels > 0 && c.max_subscribers_per_channel > 0 && c.max_message_size_bytes == 0 ==> (
        r matches Err(DaggerError::Configuration { message, .. }) && message@ == "max_message_size_bytes must be greater than 0"@),
{
}

/// What holds of a system unless told otherwise.
pub proof fn usual_system_settings(name: String, c: PubSubConfig)
    requires
        call_ensures(PubSubConfig::named, (name,), c),
    ensures
        c.name == name && c.description is None,
        c.max_channels == 1000 && c.max_subscribers_per_channel == 100 && c.max_message_size_bytes == 1_048_576,
        c.retention_policy.max_messages == 10000 && nanos(c.retention_policy.max_age) == 86_400_000_000_000
            && c.retention_policy.max_storage_bytes == 104_857_600 && c.retention_policy.cleanup_strategy is OldestFirst,
        c.delivery_guarantees == DeliveryGuarantees::AtLeastOnce && c.ordering == MessageOrdering::Unordered,
        c.performance.channel_buffer_size == 1000 && c.performance.batch_size == 100 && nanos(c.performance.flush_interval)
            == 100_000_000 && c.performance.worker_threads == 4 && !c.performance.enable_compression
            && c.performance.compression_threshold == 1024 && c.performance.async_persistence,
        !c.security.enable_publisher_auth && !c.security.enable_subscriber_auth && !c.security.enable_encryption
            && !c.security.enable_acl && c.security.message_validation is None && c.security.rate_limiting is None,
        c.metadata@ == Map::<Seq<char>, Value>::empty(),
{
}

/// What holds of a channel, a subscription and a limit for publishers unless told otherwise.
pub proof fn usual_parts_of_a_system(
    name: String,
    channel: ChannelConfig,
    described: ChannelBuilder,
    subscription: SubscriptionBuilder,
    rate: RateLimitConfigBuilder,
)
    requires
        call_ensures(ChannelConfig::new, (name,), channel),
        call_ensures(ChannelBuilder::new, (), described),
        call_ensures(SubscriptionBuilder::new, (), subscription),
        call_ensures(RateLimitConfigBuilder::new, (), rate),
    ensures
        channel.name == name && channel.persistent && channel.description is None && channel.retention_policy is None
            && channel.delivery_guarantees is None && channel.message_schema is None && channel.metadata@ == Map::<
            Seq<char>,
            Value,
        >::empty(),
        described.config.name@.len() == "channel_"@.len() + 36 && described.config.name@.take("channel_"@.len() as int)
            == "channel_"@,
        described.config.persistent && described.config.retention_policy is None && described.config.delivery_guarantees is None,
        subscription.config.name@.len() == "subscription_"@.len() + 36 && subscription.config.name@.take(
            "subscription_"@.len() as int,
        ) == "subscription_"@,
        subscription.config.channel@.len() == 0 && subscription.config.filter is None,
        subscription.config.subscription_type == SubscriptionType::Shared && subscription.config.start_position is Latest,
        subscription.config.max_unacked_messages == 1000 && nanos(subscription.config.ack_timeout) == 30_000_000_000,
        rate.config.max_messages_per_sec == 1000 && rate.config.max_bytes_per_sec == 1_048_576 && nanos(rate.config.window_size)
            == 1_000_000_000 && rate.config.action == RateLimitAction::Queue,
{
    let id = choose|id: Seq<char>| id.len() == 36 && described.config.name@ == #[trigger] ("channel_"@ + id);
    assert(("channel_"@ + id).take("channel_"@.len() as int) =~= "channel_"@);
    let sid = choose|id: Seq<char>| id.len() == 36 && subscription.config.name@ == #[trigger] ("subscription_"@ + id);
    assert(("subscription_"@ + sid).take("subscription_"@.len() as int) =~= "subscription_"@);
}

/// A system is built exactly where its settings are in order and the channel of every
/// subscription is there; it is then what was put together, without messages. The first
/// subscription without its channel is named.
pub proof fn system_is_built_where_it_is_whole(
    b: PubSubBuilder,
    settings: Result<(), DaggerError>,
    checked: Result<(), DaggerError>,
    r: Result<(PubSubConfig, StringMap<ChannelConfig>, StringMap<SubscriptionConfig>), DaggerError>,
    started: Result<PubSubExecutionContext, DaggerError>,
)
    requires
        call_ensures(PubSubConfig::validate, (&b.config,), settings),
        call_ensures(PubSubBuilder::validate, (&b,), checked),
        call_ensures(PubSubBuilder::build, (b,), r),
        call_ensures(PubSubBuilder::build_execution_context, (b,), started),
    ensures
        checked is Ok <==> settings is Ok && forall|i: int|
            0 <= i < b.subscriptions.pairs().len() ==> b.channels@.contains_key(
                (#[trigger] b.subscriptions.pairs()[i]).1.channel@,
            ),
        r is Ok <==> checked is Ok,
        started is Ok <==> checked is Ok,
        r matches Ok(t) ==> t.0 == b.config && t.1 == b.channels && t.2 == b.subscriptions,
        started matches Ok(c) ==> c.config == b.config && c.channels == b.channels && c.subscriptions == b.subscriptions
            && c.message_store@ == Map::<Seq<char>, Vec<Message>>::empty(),
        settings is Ok && checked is Err ==> exists|i: int|
            0 <= i < b.subscriptions.pairs().len() && !b.channels@.contains_key(
                (#[trigger] b.subscriptions.pairs()[i]).1.channel@,
            ) && (checked->Err_0 matches DaggerError::Validation { message, .. } && message@ == "Subscription '"@
                + b.subscriptions.pairs()[i].1.name@ + "' references non-existent channel '"@
                + b.subscriptions.pairs()[i].1.channel@ + "'"@) && forall|j: int|
                0 <= j < i ==> b.channels@.contains_key((#[trigger] b.subscriptions.pairs()[j]).1.channel@),
{
    if forall|i: int|
        0 <= i < b.subscriptions.pairs().len() ==> b.channels@.contains_key((#[trigger] b.subscriptions.pairs()[i]).1.channel@) {
        assert forall|i: int| 0 <= i < b.subscriptions.pairs().len() implies !#[trigger] dangling(
            b.subscriptions.pairs(),
            b.channels@,
            i,
        ) by {
            assert(b.channels@.contains_key(b.subscriptions.pairs()[i].1.channel@));
        }
    } else {
        let i = choose|i: int|
            0 <= i < b.subscriptions.pairs().len() && !b.channels@.contains_key(
                (#[trigger] b.subscriptions.pairs()[i]).1.channel@,
            );
        assert(dangling(b.subscriptions.pairs(), b.channels@, i));
    }
    if settings is Ok && checked is Err {
        let i = choose|i: int|
            #[trigger] first_dangling(b.subscriptions.pairs(), b.channels@, i) && checked->Err_0.is_validation(
                dangling_text(b.subscriptions.pairs()[i].1),
            );
        assert(dangling(b.subscriptions.pairs(), b.channels@, i));
        assert forall|j: int| 0 <= j < i implies b.channels@.contains_key(
            (#[trigger] b.subscriptions.pairs()[j]).1.channel@,
        ) by {
            assert(!dangling(b.subscriptions.pairs(), b.channels@, j));
        }
        assert(!b.channels@.contains_key(b.subscriptions.pairs()[i].1.channel@));
    }
}

/// A channel that was added is there as it was described, unless a later one has its name; the
/// channels of other names stay.
pub proof fn last_channel_of_a_name_counts(b: PubSubBuilder, channels: Vec<ChannelBuilder>, r: PubSubBuilder, i: int, other: Seq<char>)
    requires
        call_ensures(PubSubBuilder::channels, (b, channels), r),
        0 <= i < channels@.len(),
        forall|j: int| i < j < channels@.len() ==> (#[trigger] channels@[j]).config.name@ != channels@[i].config.name@,
    ensures
        r.channels@.contains_key(channels@[i].config.name@),
        r.channels@[channels@[i].config.name@] == channels@[i].config,
        (forall|j: int| 0 <= j < channels@.len() ==> (#[trigger] channels@[j]).config.name@ != other) ==> (
        r.channels@.contains_key(other) <==> b.channels@.contains_key(other)) && r.channels@[other] == b.channels@[other],
        r.config == b.config && r.subscriptions == b.subscriptions,
{
    lemma_later_channels(b.channels@, channels@, i, channels@.len() as int);
    if forall|j: int| 0 <= j < channels@.len() ==> (#[trigger] channels@[j]).config.name@ != other {
        lemma_other_channels(b.channels@, channels@, other, channels@.len() as int);
    }
}

proof fn lemma_later_channels(m: Map<Seq<char>, ChannelConfig>, v: Seq<ChannelBuilder>, i: int, n: int)
    requires
        0 <= i < n <= v.len(),
        forall|j: int| i < j < v.len() ==> (#[trigger] v[j]).config.name@ != v[i].config.name@,
    ensures
        with_channels(m, v, n).contains_key(v[i].config.name@),
        with_channels(m, v, n)[v[i].config.name@] == v[i].config,
    decreases n,
{
    if n - 1 > i {
        lemma_later_channels(m, v, i, n - 1);
        assert(v[n - 1].config.name@ != v[i].config.name@);
    }
}

proof fn lemma_other_channels(m: Map<Seq<char>, ChannelConfig>, v: Seq<ChannelBuilder>, other: Seq<char>, n: int)
    requires
        0 <= n <= v.len(),
        forall|j: int| 0 <= j < v.len() ==> (#[trigger] v[j]).config.name@ != other,
    ensures
        with_channels(m, v, n).contains_key(other) <==> m.contains_key(other),
        with_channels(m, v, n)[other] == m[other],
    decreases n,
{
    if n > 0 {
        lemma_other_channels(m, v, other, n - 1);
        assert(v[n - 1].config.name@ != other);
    }
}

} // verus!
