//! A publish/subscribe system that keeps messages, limits publishers and counts deliveries.

use super::pubsub_builder::{ChannelConfig, Message, MessageRetentionPolicy, PubSubConfig, SubscriptionConfig};
use crate::dash_table::DashTable;
use crate::duration::{millis_of, nanos, whole_millis};
use crate::errors::DaggerError;
use crate::ids::new_uuid;
use crate::limits::{count_up, counted_up, violated, ResourceTracker};
use crate::string_map::{copy_texts, StringMap, StringSet};
use crate::text::{byte_count, byte_len, cat2, cat3, clone_opt, owned};
use crate::value::{copy_values, values_json, Json};
use std::time::Duration;
use vstd::prelude::*;
use vstd::utf8::{encode_utf8, is_ascii_chars, is_ascii_chars_encode_utf8};

verus! {

/// What a [`Message`] says.
#[verifier::ext_equal]
pub struct MessageView {
    pub id: Seq<char>,
    pub key: Option<Seq<char>>,
    pub payload: Seq<char>,
    pub headers: Map<Seq<char>, String>,
    pub timestamp: u64,
    pub priority: Option<u8>,
    pub ttl: Option<Duration>,
    pub publisher_id: Seq<char>,
    pub metadata: Map<Seq<char>, Json>,
}

/// What an optional text says.
pub open spec fn text_view(s: Option<String>) -> Option<Seq<char>> {
    match s {
        Some(t) => Some(t@),
        None => None,
    }
}

impl View for Message {
    type V = MessageView;

    open spec fn view(&self) -> MessageView {
        MessageView {
            id: self.id@,
            key: text_view(self.key),
            payload: self.payload@,
            headers: self.headers@,
            timestamp: self.timestamp,
            priority: self.priority,
            ttl: self.ttl,
            publisher_id: self.publisher_id@,
            metadata: values_json(self.metadata@),
        }
    }
}

impl Clone for Message {
    fn clone(&self) -> (r: Self)
        ensures
            r@ == self@,
    {
        Message {
            id: self.id.clone(),
            key: clone_opt(&self.key),
            payload: self.payload.clone(),
            headers: copy_texts(&self.headers),
            timestamp: self.timestamp,
            priority: self.priority,
            ttl: self.ttl,
            publisher_id: self.publisher_id.clone(),
            metadata: copy_values(&self.metadata),
        }
    }
}

/// A message that was published.
#[derive(Debug)]
pub struct EnhancedMessage {
    pub message: Message,
    pub sequence_number: u64,
    pub channel: String,
    pub delivery_attempts: u32,
    /// As it was serialized.
    pub size_bytes: usize,
    pub compressed: bool,
}

/// What an [`EnhancedMessage`] says.
#[verifier::ext_equal]
pub struct EnhancedView {
    pub message: MessageView,
    pub sequence_number: u64,
    pub channel: Seq<char>,
    pub delivery_attempts: u32,
    pub size_bytes: usize,
    pub compressed: bool,
}

impl View for EnhancedMessage {
    type V = EnhancedView;

    open spec fn view(&self) -> EnhancedView {
        EnhancedView {
            message: self.message@,
            sequence_number: self.sequence_number,
            channel: self.channel@,
            delivery_attempts: self.delivery_attempts,
            size_bytes: self.size_bytes,
            compressed: self.compressed,
        }
    }
}

impl Clone for EnhancedMessage {
    fn clone(&self) -> (r: Self)
        ensures
            r@ == self@,
    {
        EnhancedMessage {
            message: self.message.clone(),
            sequence_number: self.sequence_number,
            channel: self.channel.clone(),
            delivery_attempts: self.delivery_attempts,
            size_bytes: self.size_bytes,
            compressed: self.compressed,
        }
    }
}

/// A channel with its messages, oldest first, and what was counted on it.
pub struct ChannelState {
    pub config: ChannelConfig,
    pub messages: Vec<EnhancedMessage>,
    pub total_published: u64,
    pub total_delivered: u64,
    pub total_bytes: u64,
    /// The names of the subscriptions.
    pub subscriptions: StringSet,
}

/// What is known of a channel.
#[derive(Debug)]
pub struct ChannelStats {
    pub channel_name: String,
    pub message_count: usize,
    pub total_published: u64,
    pub total_delivered: u64,
    pub total_bytes: u64,
    pub subscription_count: usize,
    pub oldest_message_timestamp: Option<u64>,
    pub newest_message_timestamp: Option<u64>,
}

/// Lets a publisher send so many messages and bytes within a window of time. Times are in
/// nanoseconds by a clock that does not go back.
#[derive(Debug)]
pub struct RateLimiter {
    max_messages_per_sec: u32,
    max_bytes_per_sec: u64,
    window_start: u128,
    messages_in_window: u32,
    bytes_in_window: u64,
    window_size: Duration,
}

/// What a [`RateLimiter`] holds.
#[verifier::ext_equal]
pub struct RateView {
    pub max_messages: u32,
    pub max_bytes: u64,
    pub window: nat,
    pub start: u128,
    pub messages: u32,
    pub bytes: u64,
}

impl RateView {
    /// No more was sent than may be.
    pub open spec fn within(self) -> bool {
        self.messages <= self.max_messages && self.bytes <= self.max_bytes
    }

    /// A new window begins once the old one is over.
    pub open spec fn at(self, now: u128) -> RateView {
        let elapsed: int = if now > self.start {
            now - self.start
        } else {
            0
        };
        if elapsed >= self.window {
            RateView { start: now, messages: 0, bytes: 0, ..self }
        } else {
            self
        }
    }

    /// Whether one more message of `size` bytes may be sent.
    pub open spec fn allows(self, size: int) -> bool {
        self.messages < self.max_messages && self.bytes + size <= self.max_bytes
    }

    /// After one more message of `size` bytes.
    pub open spec fn after(self, size: int) -> RateView {
        RateView { messages: (self.messages + 1) as u32, bytes: (self.bytes + size) as u64, ..self }
    }

    /// What is said where one more message of `size` bytes may not be sent.
    pub open spec fn is_refusal(self, size: int, e: DaggerError) -> bool {
        if self.messages >= self.max_messages {
            e.is_exhausted("message_rate"@, self.messages as int, self.max_messages as int)
        } else {
            e.is_exhausted("byte_rate"@, self.bytes + size, self.max_bytes as int)
        }
    }
}

impl View for RateLimiter {
    type V = RateView;

    closed spec fn view(&self) -> RateView {
        RateView {
            max_messages: self.max_messages_per_sec,
            max_bytes: self.max_bytes_per_sec,
            window: nanos(self.window_size),
            start: self.window_start,
            messages: self.messages_in_window,
            bytes: self.bytes_in_window,
        }
    }
}

/// A limiter at the beginning of a window.
pub open spec fn fresh_rate(max_messages: u32, max_bytes: u64, window: nat, now: u128) -> RateView {
    RateView { max_messages, max_bytes, window, start: now, messages: 0, bytes: 0 }
}

impl RateLimiter {
    #[verifier::type_invariant]
    spec fn inv(&self) -> bool {
        self.messages_in_window <= self.max_messages_per_sec && self.bytes_in_window <= self.max_bytes_per_sec
    }

    /// A limiter whose window begins at `now`.
    pub fn new(max_messages_per_sec: u32, max_bytes_per_sec: u64, window_size: Duration, now: u128) -> (r: Self)
        ensures
            r@ == fresh_rate(max_messages_per_sec, max_bytes_per_sec, nanos(window_size), now),
    {
        RateLimiter {
            max_messages_per_sec,
            max_bytes_per_sec,
            window_start: now,
            messages_in_window: 0,
            bytes_in_window: 0,
            window_size,
        }
    }

    /// How many bytes were sent in the window in which `now` is.
    pub fn bytes_at(&self, now: u128) -> (r: u64)
        ensures
            r == self@.at(now).bytes,
    {
        let elapsed: u128 = if now > self.window_start {
            now - self.window_start
        } else {
            0
        };
        if elapsed >= self.window_size.as_nanos() {
            0
        } else {
            self.bytes_in_window
        }
    }

    /// Counts a message, where it may be sent at `now`.
    pub fn check_rate_limit(&mut self, message_size: usize, now: u128) -> (r: Result<(), DaggerError>)
        requires
            old(self)@.at(now).bytes + message_size <= u64::MAX,
        ensures
            r is Ok <==> old(self)@.at(now).allows(message_size as int),
            r is Ok ==> final(self)@ == old(self)@.at(now).after(message_size as int),
            r matches Err(e) ==> old(self)@.at(now).is_refusal(message_size as int, e) && final(self)@ == old(self)@.at(now),
            final(self)@.within(),
    {
        proof {
            use_type_invariant(&*self);
        }
        let elapsed: u128 = if now > self.window_start {
            now - self.window_start
        } else {
            0
        };
        let mut messages: u32 = self.messages_in_window;
        let mut bytes: u64 = self.bytes_in_window;
        let mut start: u128 = self.window_start;
        if elapsed >= self.window_size.as_nanos() {
            start = now;
            messages = 0;
            bytes = 0;
        }
        *self = RateLimiter {
            max_messages_per_sec: self.max_messages_per_sec,
            max_bytes_per_sec: self.max_bytes_per_sec,
            window_start: start,
            messages_in_window: messages,
            bytes_in_window: bytes,
            window_size: self.window_size,
        };
        if messages >= self.max_messages_per_sec {
            return Err(
                DaggerError::resource_exhausted("message_rate", messages as u64, self.max_messages_per_sec as u64),
            );
        }
        let total: u64 = bytes + message_size as u64;
        if total > self.max_bytes_per_sec {
            return Err(DaggerError::resource_exhausted("byte_rate", total, self.max_bytes_per_sec));
        }
        *self = RateLimiter {
            max_messages_per_sec: self.max_messages_per_sec,
            max_bytes_per_sec: self.max_bytes_per_sec,
            window_start: start,
            messages_in_window: messages + 1,
            bytes_in_window: total,
            window_size: self.window_size,
        };
        Ok(())
    }
}

/// How many bytes the first `n` headers take.
pub open spec fn header_bytes(headers: Seq<(String, String)>, n: int) -> nat
    decreases n,
{
    if n <= 0 {
        0
    } else {
        header_bytes(headers, n - 1) + byte_count(headers[n - 1].0@) + byte_count(headers[n - 1].1@)
    }
}

/// How many bytes a message is taken to need.
pub open spec fn estimated_size(m: Message) -> nat {
    byte_count(m.id@) + 8 + (if m.key is Some {
        byte_count(m.key->0@)
    } else {
        0
    }) + byte_count(m.publisher_id@) + byte_count(m.payload@) + header_bytes(m.headers.pairs(), m.headers.pairs().len() as int)
}

proof fn lemma_header_bytes_grow(headers: Seq<(String, String)>, m: int, n: int)
    requires
        0 <= m <= n,
    ensures
        header_bytes(headers, m) <= header_bytes(headers, n),
    decreases n,
{
    if m < n {
        lemma_header_bytes_grow(headers, m, n - 1);
    }
}

/// How many bytes a message is taken to need.
pub fn estimate_message_size(message: &Message) -> (r: usize)
    requires
        estimated_size(*message) <= usize::MAX,
    ensures
        r == estimated_size(*message),
{
    let mut size: usize = byte_len(message.id.as_str()) + 8;
    if let Some(k) = &message.key {
        size = size + byte_len(k.as_str());
    }
    size = size + byte_len(message.publisher_id.as_str());
    size = size + byte_len(message.payload.as_str());
    let n: usize = message.headers.len();
    let ghost headers = message.headers.pairs();
    let ghost base = size as int;
    let mut i: usize = 0;
    while i < n
        invariant
            i <= n,
            n == headers.len(),
            headers == message.headers.pairs(),
            size == base + header_bytes(headers, i as int),
            base + header_bytes(headers, n as int) <= usize::MAX,
        decreases n - i,
    {
        proof {
            lemma_header_bytes_grow(headers, i + 1, n as int);
        }
        size = size + byte_len(message.headers.key_at(i).as_str());
        size = size + byte_len(message.headers.value_at(i).as_str());
        i = i + 1;
    }
    size
}

/// Whether `r` is `m` with an id, which is made of `fresh` where it had none.
pub open spec fn is_identified(m: Message, r: Message, fresh: Seq<char>) -> bool {
    &&& r == (Message { id: r.id, ..m })
    &&& r.id@ == (if m.id@.len() == 0 {
        "msg_"@ + fresh
    } else {
        m.id@
    })
}

/// Gives a message an id with `fresh` in it, where it has none.
pub fn identify(message: Message, fresh: &str) -> (r: Message)
    ensures
        is_identified(message, r, fresh@),
        r.id@.len() > 0,
{
    let mut m: Message = message;
    if m.id.as_str().is_empty() {
        m.id = cat2("msg_", fresh);
        proof {
            reveal_strlit("msg_");
        }
    }
    m
}

/// How many bytes a message is taken to need once it has an id.
pub open spec fn identified_size(m: Message) -> nat {
    if m.id@.len() == 0 {
        estimated_size(m) + 40
    } else {
        estimated_size(m)
    }
}

proof fn lemma_identified_size(m: Message, r: Message, fresh: Seq<char>)
    requires
        is_identified(m, r, fresh),
        fresh.len() == 36,
        is_ascii_chars(fresh),
    ensures
        estimated_size(r) == identified_size(m),
{
    reveal_strlit("msg_");
    let id = "msg_"@ + fresh;
    assert(is_ascii_chars(id)) by {
        assert forall|i: int| 0 <= i < id.len() implies '\0' <= #[trigger] id[i] <= '\u{7f}' by {
            if i >= 4 {
                assert(id[i] == fresh[i - 4]);
            }
        }
    }
    is_ascii_chars_encode_utf8(id);
    assert(encode_utf8(Seq::<char>::empty()).len() == 0);
    if m.id@.len() == 0 {
        assert(m.id@ =~= Seq::<char>::empty());
    }
}

/// Whether a message from `timestamp` is too old at `now`.
pub open spec fn outdated(timestamp: u64, max_age: u64, now: u64) -> bool {
    timestamp <= now && now - timestamp > max_age
}

/// Without those at the front that are too old.
pub open spec fn young(messages: Seq<EnhancedMessage>, max_age: u64, now: u64) -> Seq<EnhancedMessage>
    decreases messages.len(),
{
    if messages.len() > 0 && outdated(messages[0].message.timestamp, max_age, now) {
        young(messages.drop_first(), max_age, now)
    } else {
        messages
    }
}

/// Whether the first message that is not too old is not from the future.
pub open spec fn in_time(messages: Seq<EnhancedMessage>, max_age: u64, now: u64) -> bool
    decreases messages.len(),
{
    messages.len() > 0 ==> messages[0].message.timestamp <= now && (outdated(messages[0].message.timestamp, max_age, now)
        ==> in_time(messages.drop_first(), max_age, now))
}

/// Without so many at the front that one more is not too many.
pub open spec fn with_room(messages: Seq<EnhancedMessage>, most: usize) -> Seq<EnhancedMessage> {
    if messages.len() >= most {
        messages.skip(messages.len() - most + 1)
    } else {
        messages
    }
}

/// What a channel keeps when one more message comes.
pub open spec fn retained(messages: Seq<EnhancedMessage>, policy: MessageRetentionPolicy, now: u64) -> Seq<EnhancedMessage> {
    young(with_room(messages, policy.max_messages), millis_of(nanos(policy.max_age)), now)
}

/// Keeps a message behind those that are kept.
pub fn store_message(messages: &mut Vec<EnhancedMessage>, policy: &MessageRetentionPolicy, message: EnhancedMessage, now: u64)
    requires
        policy.max_messages > 0,
        in_time(with_room(old(messages)@, policy.max_messages), millis_of(nanos(policy.max_age)), now),
    ensures
        final(messages)@ == retained(old(messages)@, *policy, now).push(message),
        final(messages)@.len() <= policy.max_messages,
{
    let ghost all = messages@;
    let ghost mut gone: int = 0;
    proof {
        assert(all.skip(0) =~= all);
    }
    while messages.len() >= policy.max_messages
        invariant
            0 <= gone <= all.len(),
            messages@ == all.skip(gone),
            policy.max_messages > 0,
            gone > 0 ==> all.len() - gone >= policy.max_messages - 1,
            all.len() < policy.max_messages ==> gone == 0,
        decreases messages.len(),
    {
        messages.remove(0);
        proof {
            assert(messages@ =~= all.skip(gone + 1));
            gone = gone + 1;
        }
    }
    proof {
        assert(messages@ =~= with_room(all, policy.max_messages));
    }
    let ghost room = messages@;
    let max_age: u64 = whole_millis(policy.max_age.as_nanos());
    while messages.len() > 0 && now - messages[0].message.timestamp > max_age
        invariant
            in_time(messages@, max_age, now),
            young(messages@, max_age, now) == young(room, max_age, now),
            messages@.len() <= room.len(),
        decreases messages.len(),
    {
        messages.remove(0);
    }
    messages.push(message);
}

/// The messages that a channel keeps are its newest, in order, and fewer than it may keep.
pub proof fn newest_messages_are_kept(messages: Seq<EnhancedMessage>, policy: MessageRetentionPolicy, now: u64)
    requires
        policy.max_messages > 0,
    ensures
        retained(messages, policy, now).len() < policy.max_messages,
        retained(messages, policy, now).len() <= messages.len(),
        retained(messages, policy, now) == messages.skip(messages.len() - retained(messages, policy, now).len()),
{
    let room = with_room(messages, policy.max_messages);
    let max_age = millis_of(nanos(policy.max_age));
    lemma_young_is_suffix(room, max_age, now);
    let kept = young(room, max_age, now);
    assert(kept =~= messages.skip(messages.len() - kept.len()));
}

proof fn lemma_young_is_suffix(messages: Seq<EnhancedMessage>, max_age: u64, now: u64)
    ensures
        young(messages, max_age, now).len() <= messages.len(),
        young(messages, max_age, now) == messages.skip(messages.len() - young(messages, max_age, now).len()),
    decreases messages.len(),
{
    if messages.len() > 0 && outdated(messages[0].message.timestamp, max_age, now) {
        lemma_young_is_suffix(messages.drop_first(), max_age, now);
    }
    let kept = young(messages, max_age, now);
    assert(kept =~= messages.skip(messages.len() - kept.len()));
}

/// No message is lost before it is too old while there is room: one that is not too old stays,
/// and so do those after it.
pub proof fn young_message_stays(messages: Seq<EnhancedMessage>, policy: MessageRetentionPolicy, now: u64, i: int)
    requires
        messages.len() < policy.max_messages,
        0 <= i < messages.len(),
        !outdated(messages[i].message.timestamp, millis_of(nanos(policy.max_age)), now),
    ensures
        retained(messages, policy, now).contains(messages[i]),
{
    lemma_young_keeps(messages, millis_of(nanos(policy.max_age)), now, i);
}

proof fn lemma_young_keeps(messages: Seq<EnhancedMessage>, max_age: u64, now: u64, i: int)
    requires
        0 <= i < messages.len(),
        !outdated(messages[i].message.timestamp, max_age, now),
    ensures
        young(messages, max_age, now).contains(messages[i]),
    decreases messages.len(),
{
    if outdated(messages[0].message.timestamp, max_age, now) {
        let rest = messages.drop_first();
        assert(rest[i - 1] == messages[i]);
        lemma_young_keeps(rest, max_age, now, i - 1);
    } else {
        assert(messages.contains(messages[i]));
    }
}

/// Messages are in the order of their numbers, which are all below `next`.
pub open spec fn in_order(messages: Seq<EnhancedMessage>, next: u64) -> bool {
    &&& forall|i: int, j: int|
        0 <= i < j < messages.len() ==> (#[trigger] messages[i]).sequence_number < (#[trigger] messages[j]).sequence_number
    &&& forall|i: int| 0 <= i < messages.len() ==> (#[trigger] messages[i]).sequence_number < next
}

/// A channel whose messages are in order stays so when a message with the next number is
/// published on it.
pub proof fn publishing_keeps_order(
    messages: Seq<EnhancedMessage>,
    policy: MessageRetentionPolicy,
    now: u64,
    message: EnhancedMessage,
    next: u64,
)
    requires
        policy.max_messages > 0,
        in_order(messages, next),
        message.sequence_number == next,
        next < u64::MAX,
    ensures
        in_order(retained(messages, policy, now).push(message), (next + 1) as u64),
{
    newest_messages_are_kept(messages, policy, now);
    let kept = retained(messages, policy, now);
    let at = messages.len() - kept.len();
    assert forall|i: int| 0 <= i < kept.len() implies #[trigger] kept[i] == messages[i + at] by {}
}

/// The sum, of which the lowest 64 bits are kept.
pub open spec fn added(total: u64, more: usize) -> u64 {
    if total + more > u64::MAX {
        (total + more - u64::MAX - 1) as u64
    } else {
        (total + more) as u64
    }
}

/// A message that may be published, and what is known of it.
#[derive(Debug)]
pub struct Admitted {
    pub message: Message,
    pub size: usize,
    /// Whether it is to be compressed.
    pub compressed: bool,
}

/// A message that was published.
#[derive(Debug)]
pub struct Delivery {
    pub message_id: String,
    /// What those who listen get.
    pub message: EnhancedMessage,
    /// Whether the message is to be written down.
    pub persist: bool,
}

/// A publish/subscribe system.
pub struct EnhancedPubSub {
    pub config: PubSubConfig,
    pub channels: DashTable<ChannelState>,
    /// The number of the next message.
    pub global_sequence: u64,
    /// By publisher.
    pub rate_limiters: DashTable<RateLimiter>,
}

/// What comes of `message`, which is to be published on `channel` at `now`: whether it may be
/// published, what is refused and why, and what is counted.
pub open spec fn admission(
    before: EnhancedPubSub,
    after: EnhancedPubSub,
    counted: ResourceTracker,
    counts: ResourceTracker,
    channel: Seq<char>,
    message: Message,
    now: u128,
    r: Result<Admitted, DaggerError>,
) -> bool {
    let size = estimated_size(message) as int;
    let most = counted.limits().max_message_size_bytes as int;
    let limited = before.config.security.rate_limiting is Some;
    let l = before.limiter(message.publisher_id@, now).at(now);
    let next = after.rate_limiters@[message.publisher_id@];
    let present = before.channels@.contains_key(channel);
    &&& after.wf()
    &&& after == (EnhancedPubSub { rate_limiters: after.rate_limiters, ..before })
    &&& counts.limits() == counted.limits()
    &&& counts.started() == counted.started()
    &&& r is Ok <==> present && size <= most && (limited ==> l.allows(size))
    &&& !present ==> (r matches Err(e) && no_channel(e, channel)) && after.rate_limiters@
        == before.rate_limiters@ && counts.usage() == counted.usage()
    &&& present && size > most ==> (r matches Err(e) && e.is_exhausted("message_size"@, size, most))
        && after.rate_limiters@ == before.rate_limiters@ && counts.usage() == violated(
        counted.usage(),
    )
    &&& present && size <= most && limited ==> {
        &&& after.rate_limiters@ == before.rate_limiters@.insert(message.publisher_id@, next)
        &&& l.allows(size) ==> next@ == l.after(size)
        &&& !l.allows(size) ==> next@ == l && (r matches Err(e) && l.is_refusal(size, e))
    }
    &&& present && size <= most ==> counts.usage() == counted.usage()
    &&& present && size <= most && !limited ==> after.rate_limiters@ == before.rate_limiters@
    &&& r matches Ok(a) ==> a == (Admitted {
        message,
        size: size as usize,
        compressed: before.config.performance.enable_compression && size
            > before.config.performance.compression_threshold,
    })
}

/// What is said of a channel that there is none.
pub open spec fn no_channel(e: DaggerError, name: Seq<char>) -> bool {
    e.is_validation("Channel '"@ + name + "' not found"@)
}

fn missing_channel(name: &str) -> (r: DaggerError)
    ensures
        no_channel(r, name@),
{
    let text = cat3("Channel '", name, "' not found");
    DaggerError::validation(text.as_str())
}

impl EnhancedPubSub {
    /// Publishers are limited only where the settings say so, and as they say.
    pub open spec fn wf(&self) -> bool {
        forall|k: Seq<char>| #[trigger]
            self.rate_limiters@.contains_key(k) ==> self.config.security.rate_limiting is Some
                && self.rate_limiters@[k]@.max_bytes == self.config.security.rate_limiting->0.max_bytes_per_sec
    }

    /// A system without channels.
    pub fn new(config: PubSubConfig) -> (r: Self)
        ensures
            r.wf(),
            r.config == config,
            r.channels@ == Map::<Seq<char>, ChannelState>::empty(),
            r.global_sequence == 0,
            r.rate_limiters@ == Map::<Seq<char>, RateLimiter>::empty(),
    {
        EnhancedPubSub { config, channels: DashTable::new(), global_sequence: 0, rate_limiters: DashTable::new() }
    }

    /// Makes a channel, where there is room and none that has the name.
    pub fn create_channel(&mut self, config: ChannelConfig) -> (r: Result<(), DaggerError>)
        ensures
            r is Ok <==> old(self).channels@.dom().len() < old(self).config.max_channels && !old(self).channels@.contains_key(
                config.name@,
            ),
            r matches Err(e) ==> *final(self) == *old(self) && if old(self).channels@.dom().len()
                >= old(self).config.max_channels {
                e.is_exhausted("channels"@, old(self).channels@.dom().len() as int, old(self).config.max_channels as int)
            } else {
                e.is_validation("Channel '"@ + config.name@ + "' already exists"@)
            },
            r is Ok ==> {
                let c = final(self).channels@[config.name@];
                &&& *final(self) == (EnhancedPubSub { channels: final(self).channels, ..*old(self) })
                &&& final(self).channels@ == old(self).channels@.insert(config.name@, c)
                &&& c.config == config
                &&& c.messages@.len() == 0
                &&& c.total_published == 0
                &&& c.total_delivered == 0
                &&& c.total_bytes == 0
                &&& c.subscriptions@ == Set::<Seq<char>>::empty()
            },
    {
        let count: usize = self.channels.len();
        if count >= self.config.max_channels {
            return Err(DaggerError::resource_exhausted("channels", count as u64, self.config.max_channels as u64));
        }
        if self.channels.contains_key(config.name.as_str()) {
            let text = cat3("Channel '", config.name.as_str(), "' already exists");
            return Err(DaggerError::validation(text.as_str()));
        }
        let name = config.name.clone();
        self.channels.insert(
            name,
            ChannelState {
                config,
                messages: Vec::new(),
                total_published: 0,
                total_delivered: 0,
                total_bytes: 0,
                subscriptions: StringSet::new(),
            },
        );
        Ok(())
    }

    /// The limiter of a publisher at `now`: a fresh one where there is none yet.
    pub open spec fn limiter(&self, publisher: Seq<char>, now: u128) -> RateView {
        if self.rate_limiters@.contains_key(publisher) {
            self.rate_limiters@[publisher]@
        } else {
            let c = self.config.security.rate_limiting->0;
            fresh_rate(c.max_messages_per_sec, c.max_bytes_per_sec, nanos(c.window_size), now)
        }
    }

    fn check_publisher(&mut self, publisher: &str, size: usize, now: u128) -> (r: Result<(), DaggerError>)
        requires
            old(self).wf(),
            old(self).config.security.rate_limiting is Some ==> old(self).limiter(publisher@, now).at(now).bytes + size
                <= u64::MAX,
        ensures
            final(self).wf(),
            *final(self) == (EnhancedPubSub { rate_limiters: final(self).rate_limiters, ..*old(self) }),
            old(self).config.security.rate_limiting is None ==> r is Ok && final(self).rate_limiters@
                == old(self).rate_limiters@,
            old(self).config.security.rate_limiting is Some ==> {
                let l = old(self).limiter(publisher@, now).at(now);
                let after = final(self).rate_limiters@[publisher@];
                &&& final(self).rate_limiters@ == old(self).rate_limiters@.insert(publisher@, after)
                &&& r is Ok <==> l.allows(size as int)
                &&& r is Ok ==> after@ == l.after(size as int)
                &&& r matches Err(e) ==> l.is_refusal(size as int, e) && after@ == l
            },
    {
        let rate = match &self.config.security.rate_limiting {
            Some(c) => *c,
            None => {
                return Ok(());
            },
        };
        let ghost known = self.rate_limiters@.contains_key(publisher@);
        let mut limiter = match self.rate_limiters.remove(publisher) {
            Some(l) => l,
            None => RateLimiter::new(rate.max_messages_per_sec, rate.max_bytes_per_sec, rate.window_size, now),
        };
        proof {
            use_type_invariant(&limiter);
            assert(limiter@ == old(self).limiter(publisher@, now));
            if known {
                assert(old(self).rate_limiters@.contains_key(publisher@));
            }
            assert(limiter@.max_bytes == rate.max_bytes_per_sec);
        }
        let r = limiter.check_rate_limit(size, now);
        let ghost after = limiter;
        self.rate_limiters.insert(owned(publisher), limiter);
        proof {
            assert(self.rate_limiters@ =~= old(self).rate_limiters@.insert(publisher@, after));
            assert(after@.max_bytes == rate.max_bytes_per_sec);
            assert forall|k: Seq<char>| #[trigger] self.rate_limiters@.contains_key(k) implies self.rate_limiters@[k]@.max_bytes
                == rate.max_bytes_per_sec by {
                if k != publisher@ {
                    assert(old(self).rate_limiters@.contains_key(k));
                }
            }
        }
        r
    }

    /// Checks whether a message may be published on a channel at `now`: the channel is there,
    /// the message is not too large, and the publisher has not sent too much.
    pub fn examine(&mut self, channel_name: &str, message: Message, now: u128, tracker: &mut ResourceTracker) -> (r: Result<
        Admitted,
        DaggerError,
    >)
        requires
            old(self).wf(),
            estimated_size(message) <= usize::MAX,
            old(self).config.security.rate_limiting is Some ==> old(self).limiter(message.publisher_id@, now).at(now).bytes
                + estimated_size(message) <= u64::MAX,
        ensures
            admission(*old(self), *final(self), *old(tracker), *final(tracker), channel_name@, message, now, r),

    {
        if !self.channels.contains_key(channel_name) {
            return Err(missing_channel(channel_name));
        }
        let size: usize = estimate_message_size(&message);
        match tracker.validate_message_size(size) {
            Ok(()) => {},
            Err(e) => {
                return Err(e);
            },
        }
        match self.check_publisher(message.publisher_id.as_str(), size, now) {
            Ok(()) => {},
            Err(e) => {
                return Err(e);
            },
        }
        let compressed: bool = self.config.performance.enable_compression && size
            > self.config.performance.compression_threshold;
        Ok(Admitted { message, size, compressed })
    }

    /// Checks whether a message may be published on a channel at `now`, after it got an id
    /// where it has none.
    pub fn accept(&mut self, channel_name: &str, message: Message, now: u128, tracker: &mut ResourceTracker) -> (r: Result<
        Admitted,
        DaggerError,
    >)
        requires
            old(self).wf(),
            identified_size(message) <= usize::MAX,
            old(self).config.security.rate_limiting is Some ==> old(self).limiter(message.publisher_id@, now).at(now).bytes
                + identified_size(message) <= u64::MAX,
        ensures
            exists|fresh: Seq<char>, sent: Message|
                #![trigger is_identified(message, sent, fresh)]
                fresh.len() == 36 && is_identified(message, sent, fresh) && estimated_size(sent) == identified_size(message)
                    && admission(*old(self), *final(self), *old(tracker), *final(tracker), channel_name@, sent, now, r),
            r matches Ok(a) ==> a.message.id@.len() > 0,
    {
        let fresh = new_uuid();
        let sent = identify(message, fresh.as_str());
        proof {
            lemma_identified_size(message, sent, fresh@);
        }
        let ghost with_id = sent;
        let r = self.examine(channel_name, sent, now, tracker);
        proof {
            assert(is_identified(message, with_id, fresh@));
        }
        r
    }

    /// How long messages are kept on a channel.
    pub open spec fn policy_of(&self, channel: ChannelState) -> MessageRetentionPolicy {
        match channel.config.retention_policy {
            Some(p) => p,
            None => self.config.retention_policy,
        }
    }

    /// Publishes a message that was admitted and takes `serialized` bytes: it gets the time
    /// `now` where it has none and the next number, and the channel keeps it.
    pub fn publish(&mut self, channel_name: &str, admitted: Admitted, serialized: usize, now: u64) -> (r: Result<
        Delivery,
        DaggerError,
    >)
        requires
            admitted.message.id@.len() > 0,
            old(self).channels@.contains_key(channel_name@) ==> {
                let c = old(self).channels@[channel_name@];
                let p = old(self).policy_of(c);
                &&& p.max_messages > 0
                &&& in_time(with_room(c.messages@, p.max_messages), millis_of(nanos(p.max_age)), now)
            },
        ensures
            r is Ok <==> old(self).channels@.contains_key(channel_name@),
            r matches Err(e) ==> no_channel(e, channel_name@) && *final(self) == *old(self),
            r matches Ok(d) ==> {
                let before = old(self).channels@[channel_name@];
                let after = final(self).channels@[channel_name@];
                let stored = after.messages@.last();
                &&& *final(self) == (EnhancedPubSub {
                    channels: final(self).channels,
                    global_sequence: counted_up(old(self).global_sequence),
                    ..*old(self)
                })
                &&& final(self).channels@ == old(self).channels@.insert(channel_name@, after)
                &&& after == (ChannelState {
                    messages: after.messages,
                    total_published: counted_up(before.total_published),
                    total_bytes: added(before.total_bytes, admitted.size),
                    ..before
                })
                &&& after.messages@ == retained(before.messages@, old(self).policy_of(before), now).push(stored)
                &&& stored.message == (Message {
                    timestamp: if admitted.message.timestamp == 0 {
                        now
                    } else {
                        admitted.message.timestamp
                    },
                    ..admitted.message
                })
                &&& stored.sequence_number == old(self).global_sequence
                &&& stored.channel@ == channel_name@
                &&& stored.delivery_attempts == 0
                &&& stored.size_bytes == serialized
                &&& stored.compressed == admitted.compressed
                &&& d.message@ == stored@
                &&& d.message_id@ == admitted.message.id@
                &&& d.message_id@.len() > 0
                &&& d.persist == (before.config.persistent && old(self).config.performance.async_persistence)
            },
    {
        if !self.channels.contains_key(channel_name) {
            return Err(missing_channel(channel_name));
        }
        let mut channel = match self.channels.remove(channel_name) {
            Some(c) => c,
            None => {
                return Err(missing_channel(channel_name));
            },
        };
        let ghost before = channel;
        let mut sent: Message = admitted.message;
        if sent.timestamp == 0 {
            sent.timestamp = now;
        }
        let message_id = sent.id.clone();
        let stored = EnhancedMessage {
            message: sent,
            sequence_number: self.global_sequence,
            channel: owned(channel_name),
            delivery_attempts: 0,
            size_bytes: serialized,
            compressed: admitted.compressed,
        };
        let message = stored.clone();
        let mut messages: Vec<EnhancedMessage> = Vec::new();
        std::mem::swap(&mut messages, &mut channel.messages);
        match &channel.config.retention_policy {
            Some(p) => store_message(&mut messages, p, stored, now),
            None => store_message(&mut messages, &self.config.retention_policy, stored, now),
        }
        channel.messages = messages;
        channel.total_published = count_up(channel.total_published);
        channel.total_bytes = channel.total_bytes.wrapping_add(admitted.size as u64);
        let persist: bool = channel.config.persistent && self.config.performance.async_persistence;
        self.global_sequence = count_up(self.global_sequence);
        let ghost after = channel;
        self.channels.insert(owned(channel_name), channel);
        proof {
            assert(self.channels@ =~= old(self).channels@.insert(channel_name@, after));
        }
        Ok(Delivery { message_id, message, persist })
    }

    /// Adds a subscription to a channel; one that had the name loses its place.
    pub fn subscribe(&mut self, config: SubscriptionConfig) -> (r: Result<Subscription, DaggerError>)
        ensures
            ({
                let present = old(self).channels@.contains_key(config.channel@);
                let before = old(self).channels@[config.channel@];
                let count = before.subscriptions@.len();
                let most = old(self).config.max_subscribers_per_channel;
                &&& r is Ok <==> present && count < most
                &&& r matches Err(e) ==> *final(self) == *old(self) && if present {
                    e.is_exhausted("subscriptions"@, count as int, most as int)
                } else {
                    no_channel(e, config.channel@)
                }
                &&& r matches Ok(s) ==> {
                    let after = final(self).channels@[config.channel@];
                    &&& *final(self) == (EnhancedPubSub { channels: final(self).channels, ..*old(self) })
                    &&& final(self).channels@ == old(self).channels@.insert(config.channel@, after)
                    &&& after == (ChannelState { subscriptions: after.subscriptions, ..before })
                    &&& after.subscriptions@ == before.subscriptions@.insert(config.name@)
                    &&& s.channel_name@ == config.channel@
                    &&& s.subscription_name@ == config.name@
                    &&& s.state.config == config
                    &&& s.state.is_fresh()
                }
            }),
    {
        let count: usize = match self.channels.get(config.channel.as_str()) {
            Some(c) => c.subscriptions.len(),
            None => {
                return Err(missing_channel(config.channel.as_str()));
            },
        };
        if count >= self.config.max_subscribers_per_channel {
            return Err(
                DaggerError::resource_exhausted(
                    "subscriptions",
                    count as u64,
                    self.config.max_subscribers_per_channel as u64,
                ),
            );
        }
        let mut channel = match self.channels.remove(config.channel.as_str()) {
            Some(c) => c,
            None => {
                return Err(missing_channel(config.channel.as_str()));
            },
        };
        channel.subscriptions.insert(config.name.clone());
        let ghost after = channel;
        self.channels.insert(config.channel.clone(), channel);
        proof {
            assert(self.channels@ =~= old(self).channels@.insert(config.channel@, after));
        }
        Ok(
            Subscription {
                channel_name: config.channel.clone(),
                subscription_name: config.name.clone(),
                state: SubscriptionState::new(config),
            },
        )
    }

    /// What is known of a channel.
    pub fn get_channel_stats(&self, channel_name: &str) -> (r: Result<ChannelStats, DaggerError>)
        ensures
            r is Ok <==> self.channels@.contains_key(channel_name@),
            r matches Err(e) ==> no_channel(e, channel_name@),
            r matches Ok(s) ==> {
                let c = self.channels@[channel_name@];
                &&& s.channel_name@ == channel_name@
                &&& s.message_count == c.messages@.len()
                &&& s.total_published == c.total_published
                &&& s.total_delivered == c.total_delivered
                &&& s.total_bytes == c.total_bytes
                &&& s.subscription_count == c.subscriptions@.len()
                &&& s.oldest_message_timestamp == (if c.messages@.len() > 0 {
                    Some(c.messages@[0].message.timestamp)
                } else {
                    None
                })
                &&& s.newest_message_timestamp == (if c.messages@.len() > 0 {
                    Some(c.messages@.last().message.timestamp)
                } else {
                    None
                })
            },
    {
        let c = match self.channels.get(channel_name) {
            Some(c) => c,
            None => {
                return Err(missing_channel(channel_name));
            },
        };
        let n: usize = c.messages.len();
        Ok(
            ChannelStats {
                channel_name: owned(channel_name),
                message_count: n,
                total_published: c.total_published,
                total_delivered: c.total_delivered,
                total_bytes: c.total_bytes,
                subscription_count: c.subscriptions.len(),
                oldest_message_timestamp: if n > 0 {
                    Some(c.messages[0].message.timestamp)
                } else {
                    None
                },
                newest_message_timestamp: if n > 0 {
                    Some(c.messages[n - 1].message.timestamp)
                } else {
                    None
                },
            },
        )
    }
}

/// What is counted for a subscription. Times are in nanoseconds by a clock that does not go
/// back.
pub struct SubscriptionState {
    pub config: SubscriptionConfig,
    pub current_position: u64,
    /// Messages that were received and not acknowledged, with the time, by their ids.
    pub unacked_messages: StringMap<(EnhancedMessage, u128)>,
    pub total_received: u64,
    pub total_acknowledged: u64,
    /// How many messages may be received at a time.
    pub permits: usize,
    pub is_active: bool,
}

impl SubscriptionState {
    /// Nothing was received yet.
    pub open spec fn is_fresh(&self) -> bool {
        &&& self.current_position == 0
        &&& self.unacked_messages@ == Map::<Seq<char>, (EnhancedMessage, u128)>::empty()
        &&& self.total_received == 0
        &&& self.total_acknowledged == 0
        &&& self.permits == self.config.max_unacked_messages
        &&& self.is_active
    }

    /// A subscription that received nothing yet.
    pub fn new(config: SubscriptionConfig) -> (r: Self)
        ensures
            r.config == config,
            r.is_fresh(),
    {
        let permits: usize = config.max_unacked_messages;
        SubscriptionState {
            config,
            current_position: 0,
            unacked_messages: StringMap::new(),
            total_received: 0,
            total_acknowledged: 0,
            permits,
            is_active: true,
        }
    }
}

/// The message at `i` is the first at or behind `position`.
pub open spec fn next_at(messages: Seq<EnhancedMessage>, position: u64, i: int) -> bool {
    &&& 0 <= i < messages.len()
    &&& messages[i].sequence_number >= position
    &&& forall|j: int| 0 <= j < i ==> (#[trigger] messages[j]).sequence_number < position
}

/// The first message at or behind `position`.
pub open spec fn first_from(messages: Seq<EnhancedMessage>, position: u64) -> Option<EnhancedMessage> {
    if exists|i: int| next_at(messages, position, i) {
        Some(messages[choose|i: int| next_at(messages, position, i)])
    } else {
        None
    }
}

/// The position after the message `number` was received: behind it, where it was the first at
/// or behind `position`.
pub open spec fn position_after(messages: Seq<EnhancedMessage>, position: u64, number: u64) -> u64 {
    match first_from(messages, position) {
        Some(m) => if m.sequence_number == number {
            counted_up(number)
        } else {
            position
        },
        None => position,
    }
}

proof fn lemma_first_from(messages: Seq<EnhancedMessage>, position: u64, i: int)
    requires
        next_at(messages, position, i),
    ensures
        first_from(messages, position) == Some(messages[i]),
{
    let k = choose|k: int| next_at(messages, position, k);
    assert(next_at(messages, position, k));
    if k < i {
        assert(messages[k].sequence_number < position);
    } else if i < k {
        assert(messages[i].sequence_number < position);
    }
}

fn find_from(messages: &Vec<EnhancedMessage>, position: u64) -> (r: Option<usize>)
    ensures
        r is Some <==> first_from(messages@, position) is Some,
        r matches Some(i) ==> i < messages@.len() && first_from(messages@, position) == Some(messages@[i as int]),
{
    let mut i: usize = 0;
    while i < messages.len()
        invariant
            i <= messages@.len(),
            forall|j: int| 0 <= j < i ==> (#[trigger] messages@[j]).sequence_number < position,
        decreases messages.len() - i,
    {
        if messages[i].sequence_number >= position {
            proof {
                assert(next_at(messages@, position, i as int));
                lemma_first_from(messages@, position, i as int);
            }
            return Some(i);
        }
        i = i + 1;
    }
    None
}

/// The messages that a channel keeps are received one after the other, none twice and none left
/// out, as long as nothing comes: behind the message at `i`, the next is the one at `i + 1`.
pub proof fn kept_messages_are_received_in_order(messages: Seq<EnhancedMessage>, next: u64, position: u64, i: int)
    requires
        in_order(messages, next),
        next_at(messages, position, i),
    ensures
        first_from(messages, position) == Some(messages[i]),
        i + 1 < messages.len() ==> first_from(
            messages,
            position_after(messages, position, messages[i].sequence_number),
        ) == Some(messages[i + 1]),
        i + 1 == messages.len() ==> first_from(
            messages,
            position_after(messages, position, messages[i].sequence_number),
        ) is None,
{
    lemma_first_from(messages, position, i);
    let after = position_after(messages, position, messages[i].sequence_number);
    assert(messages[i].sequence_number < next);
    assert(after == messages[i].sequence_number + 1);
    if i + 1 < messages.len() {
        assert(messages[i].sequence_number < messages[i + 1].sequence_number);
        assert forall|j: int| 0 <= j < i + 1 implies (#[trigger] messages[j]).sequence_number < after by {
            if j < i {
                assert(messages[j].sequence_number < messages[i].sequence_number);
            }
        }
        assert(next_at(messages, after, i + 1));
        lemma_first_from(messages, after, i + 1);
    } else {
        assert forall|k: int| !next_at(messages, after, k) by {
            if 0 <= k < messages.len() && k < i {
                assert(messages[k].sequence_number < messages[i].sequence_number);
            }
        }
    }
}

/// A place at a channel.
pub struct Subscription {
    pub channel_name: String,
    pub subscription_name: String,
    pub state: SubscriptionState,
}

impl Subscription {
    /// Checks that messages may be received.
    pub fn ready(&self) -> (r: Result<(), DaggerError>)
        ensures
            r is Ok <==> self.state.is_active,
            r matches Err(e) ==> e.is_channel(self.subscription_name@, "Subscription is inactive"@),
    {
        if !self.state.is_active {
            return Err(DaggerError::channel(self.subscription_name.as_str(), "Subscription is inactive"));
        }
        Ok(())
    }

    /// The messages that the channel keeps, oldest first.
    pub open spec fn kept(&self, pubsub: EnhancedPubSub) -> Seq<EnhancedMessage> {
        if pubsub.channels@.contains_key(self.channel_name@) {
            pubsub.channels@[self.channel_name@].messages@
        } else {
            Seq::empty()
        }
    }

    /// The message that is received: what came, or else the first that the channel keeps at or
    /// behind the position.
    pub open spec fn pending(&self, pubsub: EnhancedPubSub, incoming: Option<EnhancedMessage>) -> Option<EnhancedMessage> {
        match incoming {
            Some(m) => Some(m),
            None => first_from(self.kept(pubsub), self.state.current_position),
        }
    }

    /// Takes what came from the channel at `now` or, where nothing came, the first message that
    /// the channel keeps at or behind the position: a message has to be acknowledged from then
    /// on, and counts one more attempt. The position moves behind it, unless there are earlier
    /// ones to be received.
    pub fn receive(&mut self, pubsub: &EnhancedPubSub, incoming: Option<EnhancedMessage>, now: u128) -> (r: Result<
        EnhancedMessage,
        DaggerError,
    >)
        requires
            old(self).pending(*pubsub, incoming) matches Some(m) ==> m.delivery_attempts < u32::MAX,
        ensures
            r is Ok <==> old(self).pending(*pubsub, incoming) is Some,
            r matches Err(e) ==> e.is_channel(old(self).subscription_name@, "No messages available"@) && *final(self)
                == *old(self),
            r matches Ok(m) ==> {
                let came = old(self).pending(*pubsub, incoming)->0;
                let kept = final(self).state.unacked_messages@[came.message.id@];
                &&& m@ == (EnhancedView { delivery_attempts: (came.delivery_attempts + 1) as u32, ..came@ })
                &&& *final(self) == (Subscription {
                    state: SubscriptionState {
                        current_position: position_after(
                            old(self).kept(*pubsub),
                            old(self).state.current_position,
                            came.sequence_number,
                        ),
                        unacked_messages: final(self).state.unacked_messages,
                        total_received: counted_up(old(self).state.total_received),
                        ..old(self).state
                    },
                    ..*old(self)
                })
                &&& final(self).state.unacked_messages@ == old(self).state.unacked_messages@.insert(came.message.id@, kept)
                &&& kept.0@ == came@
                &&& kept.1 == now
            },
    {
        let first: Option<EnhancedMessage> = match pubsub.channels.get(self.channel_name.as_str()) {
            Some(c) => match find_from(&c.messages, self.state.current_position) {
                Some(i) => Some(c.messages[i].clone()),
                None => None,
            },
            None => None,
        };
        proof {
            let kept = self.kept(*pubsub);
            if !pubsub.channels@.contains_key(self.channel_name@) {
                assert(!(exists|i: int| next_at(kept, self.state.current_position, i)));
            }
            assert(first is Some <==> first_from(kept, self.state.current_position) is Some);
            assert(first matches Some(m) ==> m@ == first_from(kept, self.state.current_position)->0@);
        }
        let next: Option<u64> = match &first {
            Some(m) => Some(m.sequence_number),
            None => None,
        };
        let received: Option<EnhancedMessage> = match incoming {
            Some(m) => Some(m),
            None => first,
        };
        match received {
            Some(m) => {
                let mut m: EnhancedMessage = m;
                if let Some(n) = next {
                    if n == m.sequence_number {
                        self.state.current_position = count_up(n);
                    }
                }
                let kept = m.clone();
                self.state.unacked_messages.insert(m.message.id.clone(), (kept, now));
                self.state.total_received = count_up(self.state.total_received);
                m.delivery_attempts = m.delivery_attempts + 1;
                Ok(m)
            },
            None => Err(DaggerError::channel(self.subscription_name.as_str(), "No messages available")),
        }
    }

    /// Acknowledges a message that was received, and counts it on the channel.
    pub fn acknowledge(&mut self, pubsub: &mut EnhancedPubSub, message_id: &str) -> (r: Result<(), DaggerError>)
        ensures
            r is Ok <==> old(self).state.unacked_messages@.contains_key(message_id@),
            r matches Err(e) ==> {
                &&& e.is_validation("Message '"@ + message_id@ + "' not found in unacked messages"@)
                &&& *final(self) == *old(self)
                &&& *final(pubsub) == *old(pubsub)
            },
            r is Ok ==> {
                let name = old(self).channel_name@;
                let before = old(pubsub).channels@[name];
                &&& *final(self) == (Subscription {
                    state: SubscriptionState {
                        unacked_messages: final(self).state.unacked_messages,
                        total_acknowledged: counted_up(old(self).state.total_acknowledged),
                        ..old(self).state
                    },
                    ..*old(self)
                })
                &&& final(self).state.unacked_messages@ == old(self).state.unacked_messages@.remove(message_id@)
                &&& *final(pubsub) == (EnhancedPubSub { channels: final(pubsub).channels, ..*old(pubsub) })
                &&& final(pubsub).channels@ == (if old(pubsub).channels@.contains_key(name) {
                    old(pubsub).channels@.insert(
                        name,
                        ChannelState { total_delivered: counted_up(before.total_delivered), ..before },
                    )
                } else {
                    old(pubsub).channels@
                })
            },
    {
        if !self.state.unacked_messages.contains_key(message_id) {
            let text = cat3("Message '", message_id, "' not found in unacked messages");
            return Err(DaggerError::validation(text.as_str()));
        }
        self.state.unacked_messages.remove(message_id);
        self.state.total_acknowledged = count_up(self.state.total_acknowledged);
        if pubsub.channels.contains_key(self.channel_name.as_str()) {
            match pubsub.channels.remove(self.channel_name.as_str()) {
                Some(c) => {
                    let mut channel: ChannelState = c;
                    channel.total_delivered = count_up(channel.total_delivered);
                    let ghost after = channel;
                    pubsub.channels.insert(self.channel_name.clone(), channel);
                    proof {
                        assert(pubsub.channels@ =~= old(pubsub).channels@.insert(self.channel_name@, after));
                    }
                },
                None => {},
            }
        }
        Ok(())
    }
}

/// Whether `after` is what a channel that held `before`, and may keep `most` messages and each
/// for `age` milliseconds, holds once one more came at `now`: never more than it may; the newest
/// of those that were there, and then the new one. A message went only because there were too
/// many, or because it was too old; where there was room, each that is not too old is there.
pub open spec fn keeps_newest(
    before: Seq<EnhancedMessage>,
    after: Seq<EnhancedMessage>,
    most: int,
    age: int,
    now: int,
) -> bool {
    let gone = before.len() - (after.len() - 1);
    &&& 1 <= after.len() <= most
    &&& 0 <= gone <= before.len()
    &&& forall|k: int| 0 <= k < after.len() - 1 ==> (#[trigger] after[k]) == before[gone + k]
    &&& forall|i: int|
        0 <= i < gone ==> i <= before.len() - most || now - (#[trigger] before[i]).message.timestamp > age
    &&& before.len() < most ==> forall|i: int|
        0 <= i < before.len() && now - (#[trigger] before[i]).message.timestamp <= age ==> gone <= i && after[i - gone]
            == before[i]
    &&& after.len() > 1 ==> now - after[0].message.timestamp <= age
}

proof fn lemma_keeps_newest(before: Seq<EnhancedMessage>, new: EnhancedMessage, p: MessageRetentionPolicy, now: u64)
    requires
        p.max_messages > 0,
        nanos(p.max_age) / 1_000_000 <= u64::MAX,
    ensures
        keeps_newest(
            before,
            retained(before, p, now).push(new),
            p.max_messages as int,
            nanos(p.max_age) as int / 1_000_000,
            now as int,
        ),
{
    newest_messages_are_kept(before, p, now);
    let kept = retained(before, p, now);
    let after = kept.push(new);
    let age = millis_of(nanos(p.max_age));
    assert(age == nanos(p.max_age) / 1_000_000);
    let room = with_room(before, p.max_messages);
    let gone = before.len() - kept.len();
    let cut = before.len() - room.len();
    lemma_young_drops(room, age, now);
    lemma_young_is_suffix(room, age, now);
    assert forall|i: int| 0 <= i < gone implies i <= before.len() - p.max_messages || now - (
    #[trigger] before[i]).message.timestamp > age by {
        if i >= cut {
            assert(room[i - cut] == before[i]);
        }
    }
    assert forall|k: int| 0 <= k < after.len() - 1 implies (#[trigger] after[k]) == before[gone + k] by {
        assert(kept[k] == before.skip(gone)[k]);
    }
    if before.len() < p.max_messages {
        assert forall|i: int|
            0 <= i < before.len() && now - (#[trigger] before[i]).message.timestamp <= age implies gone <= i && after[i - gone]
            == before[i] by {
            if i < gone {
                lemma_young_holds(room, age, now, i);
            } else {
                assert(after[i - gone] == before[gone + (i - gone)]);
            }
        }
    }
}

proof fn lemma_young_drops(messages: Seq<EnhancedMessage>, max_age: u64, now: u64)
    ensures
        forall|i: int|
            0 <= i < messages.len() - young(messages, max_age, now).len() ==> now - (
            #[trigger] messages[i]).message.timestamp > max_age,
        young(messages, max_age, now).len() > 0 ==> now - young(messages, max_age, now)[0].message.timestamp <= max_age,
    decreases messages.len(),
{
    if messages.len() > 0 && outdated(messages[0].message.timestamp, max_age, now) {
        let rest = messages.drop_first();
        lemma_young_drops(rest, max_age, now);
        assert forall|i: int| 0 <= i < messages.len() - young(messages, max_age, now).len() implies now - (
        #[trigger] messages[i]).message.timestamp > max_age by {
            if i > 0 {
                assert(rest[i - 1] == messages[i]);
            }
        }
    }
}

proof fn lemma_young_holds(messages: Seq<EnhancedMessage>, max_age: u64, now: u64, i: int)
    requires
        0 <= i < messages.len(),
        now - messages[i].message.timestamp <= max_age,
    ensures
        messages.len() - young(messages, max_age, now).len() <= i,
    decreases messages.len(),
{
    if outdated(messages[0].message.timestamp, max_age, now) {
        assert(messages.drop_first()[i - 1] == messages[i]);
        lemma_young_holds(messages.drop_first(), max_age, now, i - 1);
    }
}

/// On a channel with a policy of its own, that policy alone decides what is kept.
pub proof fn own_policy_decides(
    system: &mut EnhancedPubSub,
    name: &str,
    admitted: Admitted,
    serialized: usize,
    now: u64,
    r: Result<Delivery, DaggerError>,
    p: MessageRetentionPolicy,
)
    requires
        call_ensures(EnhancedPubSub::publish, (system, name, admitted, serialized, now), r),
        old(system).channels@.contains_key(name@),
        old(system).channels@[name@].config.retention_policy == Some(p),
        p.max_messages > 0,
        nanos(p.max_age) / 1_000_000 <= u64::MAX,
    ensures
        r is Ok,
        final(system).channels@.contains_key(name@),
        keeps_newest(
            old(system).channels@[name@].messages@,
            final(system).channels@[name@].messages@,
            p.max_messages as int,
            nanos(p.max_age) as int / 1_000_000,
            now as int,
        ),
{
    let before = old(system).channels@[name@].messages@;
    let after = final(system).channels@[name@].messages@;
    lemma_keeps_newest(before, after.last(), p, now);
}

/// On a channel without a policy of its own, that of the system decides what is kept.
pub proof fn system_policy_decides_without_own(
    system: &mut EnhancedPubSub,
    name: &str,
    admitted: Admitted,
    serialized: usize,
    now: u64,
    r: Result<Delivery, DaggerError>,
)
    requires
        call_ensures(EnhancedPubSub::publish, (system, name, admitted, serialized, now), r),
        old(system).channels@.contains_key(name@),
        old(system).channels@[name@].config.retention_policy is None,
        old(system).config.retention_policy.max_messages > 0,
        nanos(old(system).config.retention_policy.max_age) / 1_000_000 <= u64::MAX,
    ensures
        r is Ok,
        final(system).channels@.contains_key(name@),
        keeps_newest(
            old(system).channels@[name@].messages@,
            final(system).channels@[name@].messages@,
            old(system).config.retention_policy.max_messages as int,
            nanos(old(system).config.retention_policy.max_age) as int / 1_000_000,
            now as int,
        ),
{
    let before = old(system).channels@[name@].messages@;
    let after = final(system).channels@[name@].messages@;
    lemma_keeps_newest(before, after.last(), old(system).config.retention_policy, now);
}

/// What is published is what was handed in, with the time where it had none and with the next
/// number; it is counted on its channel, and nothing else changes.
pub proof fn published_message_is_the_one_sent(
    system: &mut EnhancedPubSub,
    name: &str,
    admitted: Admitted,
    serialized: usize,
    now: u64,
    r: Result<Delivery, DaggerError>,
)
    requires
        call_ensures(EnhancedPubSub::publish, (system, name, admitted, serialized, now), r),
    ensures
        r is Ok <==> old(system).channels@.contains_key(name@),
        r is Err ==> *final(system) == *old(system),
        r matches Ok(d) ==> {
            let c = final(system).channels@[name@];
            let before = old(system).channels@[name@];
            let m = c.messages@.last();
            &&& c.messages@.len() > 0
            &&& m.message.id@ == admitted.message.id@ && d.message_id@ == admitted.message.id@
            &&& m.message.payload@ == admitted.message.payload@ && d.message.message.payload@ == admitted.message.payload@
            &&& m.message.publisher_id@ == admitted.message.publisher_id@
            &&& m.message.key == admitted.message.key && m.message.headers == admitted.message.headers
            &&& m.message.priority == admitted.message.priority && m.message.ttl == admitted.message.ttl
            &&& admitted.message.timestamp != 0 ==> m.message.timestamp == admitted.message.timestamp
            &&& admitted.message.timestamp == 0 ==> m.message.timestamp == now
            &&& m.sequence_number == old(system).global_sequence && d.message.sequence_number == old(system).global_sequence
            &&& m.channel@ == name@ && m.delivery_attempts == 0 && m.size_bytes == serialized && m.compressed
                == admitted.compressed
            &&& old(system).global_sequence < u64::MAX ==> final(system).global_sequence == old(system).global_sequence + 1
            &&& before.total_published < u64::MAX ==> c.total_published == before.total_published + 1
            &&& before.total_bytes + admitted.size <= u64::MAX ==> c.total_bytes == before.total_bytes + admitted.size
            &&& c.total_delivered == before.total_delivered && c.config == before.config && c.subscriptions
                == before.subscriptions
            &&& d.persist <==> before.config.persistent && old(system).config.performance.async_persistence
            &&& final(system).config == old(system).config && final(system).rate_limiters == old(system).rate_limiters
            &&& forall|k: Seq<char>|
                k != name@ ==> (#[trigger] final(system).channels@.contains_key(k) <==> old(system).channels@.contains_key(k))
                    && final(system).channels@[k] == old(system).channels@[k]
        },
{
}

/// A limiter lets a message through exactly where the window has room for it and its bytes; a
/// window that is over counts for nothing.
pub proof fn limiter_counts_its_window(l: &mut RateLimiter, size: usize, now: u128, r: Result<(), DaggerError>)
    requires
        call_ensures(RateLimiter::check_rate_limit, (l, size, now), r),
    ensures
        now - old(l)@.start >= old(l)@.window && old(l)@.window > 0 ==> {
            &&& r is Ok <==> old(l)@.max_messages >= 1 && size <= old(l)@.max_bytes
            &&& r is Ok ==> final(l)@.start == now && final(l)@.messages == 1 && final(l)@.bytes == size
        },
        now - old(l)@.start < old(l)@.window && old(l)@.window > 0 ==> {
            &&& r is Ok <==> old(l)@.messages + 1 <= old(l)@.max_messages && old(l)@.bytes + size <= old(l)@.max_bytes
            &&& r is Ok ==> final(l)@.start == old(l)@.start && final(l)@.messages == old(l)@.messages + 1 && final(l)@.bytes
                == old(l)@.bytes + size
            &&& r is Err ==> final(l)@ == old(l)@
            &&& old(l)@.messages >= old(l)@.max_messages ==> (r matches Err(
                DaggerError::ResourceExhaustion { resource, current, limit, details },
            ) && resource@ == "message_rate"@ && current == old(l)@.messages && limit == old(l)@.max_messages)
            &&& old(l)@.messages < old(l)@.max_messages && old(l)@.bytes + size > old(l)@.max_bytes ==> (r matches Err(
                DaggerError::ResourceExhaustion { resource, current, limit, details },
            ) && resource@ == "byte_rate"@ && current == old(l)@.bytes + size && limit == old(l)@.max_bytes)
        },
        final(l)@.messages <= final(l)@.max_messages && final(l)@.bytes <= final(l)@.max_bytes,
        final(l)@.max_messages == old(l)@.max_messages && final(l)@.max_bytes == old(l)@.max_bytes && final(l)@.window
            == old(l)@.window,
{
}

/// A message is taken to need the bytes of its texts, eight for its time, and those of each
/// header's name and value.
pub proof fn size_is_of_all_parts(m: &Message, r: usize)
    requires
        call_ensures(estimate_message_size, (m,), r),
    ensures
        m.headers.pairs().len() == 0 ==> r == byte_count(m.id@) + byte_count(m.publisher_id@) + byte_count(m.payload@) + (
        match m.key {
            Some(k) => byte_count(k@),
            None => 0,
        }) + 8,
        m.headers.pairs().len() == 1 ==> r == byte_count(m.id@) + byte_count(m.publisher_id@) + byte_count(m.payload@) + (
        match m.key {
            Some(k) => byte_count(k@),
            None => 0,
        }) + 8 + byte_count(m.headers.pairs()[0].0@) + byte_count(m.headers.pairs()[0].1@),
{
    reveal_with_fuel(header_bytes, 3);
}

/// Each header counts, by its name and its value.
pub proof fn each_header_counts(headers: Seq<(String, String)>, more: (String, String))
    ensures
        header_bytes(headers.push(more), headers.len() as int + 1) == header_bytes(headers, headers.len() as int) + byte_count(more.0@)
            + byte_count(more.1@),
{
    let all = headers.push(more);
    lemma_header_prefix(headers, all, headers.len() as int);
}

proof fn lemma_header_prefix(headers: Seq<(String, String)>, all: Seq<(String, String)>, n: int)
    requires
        n <= headers.len() <= all.len(),
        forall|i: int| 0 <= i < headers.len() ==> headers[i] == all[i],
    ensures
        header_bytes(headers, n) == header_bytes(all, n),
    decreases n,
{
    if n > 0 {
        lemma_header_prefix(headers, all, n - 1);
    }
}

/// A message is let in only where its channel is there, it is not larger than it may be and its
/// publisher, if limited, may send it; otherwise what is wrong is named.
pub proof fn admission_is_checked(
    system: &mut EnhancedPubSub,
    channel: &str,
    message: Message,
    now: u128,
    tracker: &mut ResourceTracker,
    r: Result<Admitted, DaggerError>,
)
    requires
        call_ensures(EnhancedPubSub::examine, (system, channel, message, now, tracker), r),
        estimated_size(message) <= usize::MAX,
    ensures
        !old(system).channels@.contains_key(channel@) ==> (r matches Err(DaggerError::Validation { message, .. }) && message@
            == "Channel '"@ + channel@ + "' not found"@),
        old(system).channels@.contains_key(channel@) && estimated_size(message) > old(tracker).limits().max_message_size_bytes ==> (r matches Err(
            DaggerError::ResourceExhaustion { resource, current, limit, .. },
        ) && resource@ == "message_size"@ && current == estimated_size(message) && limit == old(tracker).limits().max_message_size_bytes),
        old(system).channels@.contains_key(channel@) && estimated_size(message) <= old(tracker).limits().max_message_size_bytes && old(system).config.security.rate_limiting is None ==> r is Ok,
        r is Ok ==> old(system).channels@.contains_key(channel@) && estimated_size(message) <= old(tracker).limits().max_message_size_bytes,
        r matches Ok(a) ==> a.message == message && a.size == estimated_size(message) && (a.compressed <==> old(system).config.performance.enable_compression && a.size > old(system).config.performance.compression_threshold),
        r is Ok && old(system).config.security.rate_limiting is Some && old(system).rate_limiters@.contains_key(
            message.publisher_id@,
        ) && now - old(system).rate_limiters@[message.publisher_id@]@.start < old(system).rate_limiters@[message.publisher_id@]@.window && old(system).rate_limiters@[message.publisher_id@]@.window > 0 ==> {
            let l = old(system).rate_limiters@[message.publisher_id@]@;
            let after = final(system).rate_limiters@[message.publisher_id@]@;
            l.messages < l.max_messages && l.bytes + estimated_size(message) <= l.max_bytes && after.messages == l.messages + 1
                && after.bytes == l.bytes + estimated_size(message)
        },
        r is Ok && old(system).config.security.rate_limiting is Some && !old(system).rate_limiters@.contains_key(
            message.publisher_id@,
        ) ==> {
            let after = final(system).rate_limiters@[message.publisher_id@]@;
            final(system).rate_limiters@.contains_key(message.publisher_id@) && after.messages == 1 && after.bytes
                == estimated_size(message)
        },
        final(system).channels == old(system).channels && final(system).config == old(system).config && final(system).global_sequence == old(system).global_sequence,
        forall|k: Seq<char>|
            k != message.publisher_id@ ==> (#[trigger] final(system).rate_limiters@.contains_key(k) <==> old(system).rate_limiters@.contains_key(k)) && final(system).rate_limiters@[k] == old(system).rate_limiters@[k],
{
}

/// A message that has an id keeps it; one that has none gets one, and nothing else changes.
pub proof fn id_is_kept(message: Message, fresh: &str, r: Message)
    requires
        call_ensures(identify, (message, fresh), r),
    ensures
        message.id@.len() > 0 ==> r.id@ == message.id@,
        message.id@.len() == 0 ==> r.id@ == "msg_"@ + fresh@,
        r.payload == message.payload && r.key == message.key && r.headers == message.headers && r.timestamp
            == message.timestamp && r.publisher_id == message.publisher_id && r.priority == message.priority && r.ttl
            == message.ttl && r.metadata == message.metadata,
{
}

/// Without anything new, what is received is the first kept message whose number is not below
/// the position, and the position moves behind it; the message counts one more attempt and waits
/// to be acknowledged.
pub proof fn kept_message_is_received(
    s: &mut Subscription,
    pubsub: &EnhancedPubSub,
    now: u128,
    r: Result<EnhancedMessage, DaggerError>,
    i: int,
)
    requires
        call_ensures(Subscription::receive, (s, pubsub, None, now), r),
        pubsub.channels@.contains_key(old(s).channel_name@),
        0 <= i < pubsub.channels@[old(s).channel_name@].messages@.len(),
        pubsub.channels@[old(s).channel_name@].messages@[i].sequence_number >= old(s).state.current_position,
        forall|j: int|
            0 <= j < i ==> (#[trigger] pubsub.channels@[old(s).channel_name@].messages@[j]).sequence_number < old(s).state.current_position,
    ensures
        r matches Ok(m) && {
            let sent = pubsub.channels@[old(s).channel_name@].messages@[i];
            &&& m.message.id@ == sent.message.id@ && m.message.payload@ == sent.message.payload@ && m.sequence_number
                == sent.sequence_number
            &&& sent.delivery_attempts < u32::MAX ==> m.delivery_attempts == sent.delivery_attempts + 1
            &&& sent.sequence_number < u64::MAX ==> final(s).state.current_position == sent.sequence_number + 1
            &&& final(s).state.unacked_messages@.contains_key(sent.message.id@)
            &&& final(s).state.unacked_messages@[sent.message.id@].1 == now
            &&& old(s).state.total_received < u64::MAX ==> final(s).state.total_received == old(s).state.total_received + 1
        },
{
    assert(next_at(pubsub.channels@[old(s).channel_name@].messages@, old(s).state.current_position, i));
    lemma_first_from(pubsub.channels@[old(s).channel_name@].messages@, old(s).state.current_position, i);
}

/// A message that came is the one that is received, and waits to be acknowledged; where nothing
/// came and nothing is kept, that is said.
pub proof fn incoming_message_is_received(
    s: &mut Subscription,
    pubsub: &EnhancedPubSub,
    incoming: Option<EnhancedMessage>,
    now: u128,
    r: Result<EnhancedMessage, DaggerError>,
)
    requires
        call_ensures(Subscription::receive, (s, pubsub, incoming, now), r),
    ensures
        incoming matches Some(sent) ==> (r matches Ok(m) && m.message.id@ == sent.message.id@ && m.message.payload@
            == sent.message.payload@ && m.sequence_number == sent.sequence_number && final(s).state.unacked_messages@.contains_key(sent.message.id@)),
        incoming is None && !pubsub.channels@.contains_key(old(s).channel_name@) ==> (r matches Err(
            DaggerError::Channel { channel, message, .. },
        ) && channel@ == old(s).subscription_name@ && message@ == "No messages available"@ && *final(s) == *old(s)),
        final(s).state.permits == old(s).state.permits && final(s).state.is_active == old(s).state.is_active && final(s).state.total_acknowledged == old(s).state.total_acknowledged && final(s).channel_name == old(s).channel_name,
{
}

/// A message that waits to be acknowledged stops waiting once it is, and is counted once with
/// the subscription and once on its channel; another message cannot be acknowledged.
pub proof fn acknowledged_message_stops_waiting(
    s: &mut Subscription,
    pubsub: &mut EnhancedPubSub,
    id: &str,
    r: Result<(), DaggerError>,
)
    requires
        call_ensures(Subscription::acknowledge, (s, pubsub, id), r),
    ensures
        r is Ok <==> old(s).state.unacked_messages@.contains_key(id@),
        r is Err ==> *final(s) == *old(s) && *final(pubsub) == *old(pubsub),
        r is Ok ==> {
            let name = old(s).channel_name@;
            &&& !final(s).state.unacked_messages@.contains_key(id@)
            &&& forall|k: Seq<char>|
                k != id@ ==> (#[trigger] final(s).state.unacked_messages@.contains_key(k) <==> old(s).state.unacked_messages@.contains_key(k))
            &&& old(s).state.total_acknowledged < u64::MAX ==> final(s).state.total_acknowledged == old(s).state.total_acknowledged + 1
            &&& final(s).state.total_received == old(s).state.total_received && final(s).state.current_position == old(s).state.current_position
            &&& old(pubsub).channels@.contains_key(name) && old(pubsub).channels@[name].total_delivered < u64::MAX ==> final(pubsub).channels@[name].total_delivered == old(pubsub).channels@[name].total_delivered + 1
            &&& old(pubsub).channels@.contains_key(name) ==> final(pubsub).channels@[name].messages == old(pubsub).channels@[name].messages
            &&& final(pubsub).channels@.dom() == old(pubsub).channels@.dom()
        },
{
    assert(final(pubsub).channels@.dom() =~= old(pubsub).channels@.dom() || r is Err);
}

/// A list of messages keeps the newest that its policy allows, and the new one last.
pub proof fn stored_message_is_kept_last(messages: &mut Vec<EnhancedMessage>, p: &MessageRetentionPolicy, m: EnhancedMessage, now: u64)
    requires
        call_ensures(store_message, (messages, p, m, now), ()),
        p.max_messages > 0,
        nanos(p.max_age) / 1_000_000 <= u64::MAX,
    ensures
        final(messages)@.len() > 0 && final(messages)@.last() == m,
        keeps_newest(
            old(messages)@,
            final(messages)@,
            p.max_messages as int,
            nanos(p.max_age) as int / 1_000_000,
            now as int,
        ),
{
    lemma_keeps_newest(old(messages)@, m, *p, now);
}

/// A channel is made where there is room and none has its name, and starts without messages or
/// subscriptions; else nothing changes and it is said why.
pub proof fn made_channel_is_empty(x: &mut EnhancedPubSub, config: ChannelConfig, r: Result<(), DaggerError>, other: Seq<char>)
    requires
        call_ensures(EnhancedPubSub::create_channel, (x, config), r),
    ensures
        old(x).channels@.dom().len() >= old(x).config.max_channels ==> (r matches Err(
            DaggerError::ResourceExhaustion { resource, current, limit, .. },
        ) && resource@ == "channels"@ && current == old(x).channels@.dom().len() && limit == old(x).config.max_channels),
        old(x).channels@.dom().len() < old(x).config.max_channels && old(x).channels@.contains_key(config.name@) ==> (
        r matches Err(DaggerError::Validation { message, .. }) && message@ == "Channel '"@ + config.name@ + "' already exists"@),
        old(x).channels@.dom().len() < old(x).config.max_channels && !old(x).channels@.contains_key(config.name@) ==> r is Ok,
        r is Err ==> *final(x) == *old(x),
        r is Ok ==> final(x).channels@.contains_key(config.name@) && final(x).channels@[config.name@].config == config
            && final(x).channels@[config.name@].messages@.len() == 0 && final(x).channels@[config.name@].subscriptions@ == Set::<
            Seq<char>,
        >::empty() && final(x).channels@[config.name@].total_published == 0 && final(x).config == old(x).config,
        other != config.name@ ==> (final(x).channels@.contains_key(other) <==> old(x).channels@.contains_key(other))
            && final(x).channels@[other] == old(x).channels@[other],
{
}

/// A subscription is had where the channel is there and has room, and starts at the beginning
/// with nothing received; the channel knows it, and no other channel changes.
pub proof fn subscriptions_start_fresh(x: &mut EnhancedPubSub, config: SubscriptionConfig, r: Result<Subscription, DaggerError>, other: Seq<char>)
    requires
        call_ensures(EnhancedPubSub::subscribe, (x, config), r),
    ensures
        !old(x).channels@.contains_key(config.channel@) ==> (r matches Err(DaggerError::Validation { message, .. }) && message@
            == "Channel '"@ + config.channel@ + "' not found"@),
        old(x).channels@.contains_key(config.channel@) && old(x).channels@[config.channel@].subscriptions@.len() >= old(x).config.max_subscribers_per_channel ==> (r matches Err(DaggerError::ResourceExhaustion { resource, .. }) && resource@
            == "subscriptions"@),
        old(x).channels@.contains_key(config.channel@) && old(x).channels@[config.channel@].subscriptions@.len() < old(x).config.max_subscribers_per_channel ==> r is Ok,
        r is Err ==> *final(x) == *old(x),
        r matches Ok(s) ==> s.channel_name@ == config.channel@ && s.subscription_name@ == config.name@ && s.state.config == config
            && s.state.current_position == 0 && s.state.total_received == 0 && s.state.total_acknowledged == 0
            && s.state.permits == config.max_unacked_messages && s.state.is_active && s.state.unacked_messages@ == Map::<
            Seq<char>,
            (EnhancedMessage, u128),
        >::empty(),
        r is Ok ==> final(x).channels@[config.channel@].subscriptions@.contains(config.name@)
            && final(x).channels@[config.channel@].messages == old(x).channels@[config.channel@].messages,
        other != config.channel@ ==> final(x).channels@[other] == old(x).channels@[other],
{
}

/// What is said of a channel is what it holds.
pub proof fn channels_are_described(x: &EnhancedPubSub, name: &str, r: Result<ChannelStats, DaggerError>)
    requires
        call_ensures(EnhancedPubSub::get_channel_stats, (x, name), r),
    ensures
        r is Ok <==> x.channels@.contains_key(name@),
        r matches Err(e) ==> (e matches DaggerError::Validation { message, .. } && message@ == "Channel '"@ + name@
            + "' not found"@),
        r matches Ok(s) ==> s.channel_name@ == name@ && s.message_count == x.channels@[name@].messages@.len() && s.total_published
            == x.channels@[name@].total_published && s.total_delivered == x.channels@[name@].total_delivered && s.total_bytes
            == x.channels@[name@].total_bytes && s.subscription_count == x.channels@[name@].subscriptions@.len(),
        r is Ok && x.channels@[name@].messages@.len() > 0 ==> r->Ok_0.oldest_message_timestamp == Some(
            x.channels@[name@].messages@[0].message.timestamp,
        ) && r->Ok_0.newest_message_timestamp == Some(
            x.channels@[name@].messages@[x.channels@[name@].messages@.len() - 1].message.timestamp,
        ),
        r is Ok && x.channels@[name@].messages@.len() == 0 ==> r->Ok_0.oldest_message_timestamp is None
            && r->Ok_0.newest_message_timestamp is None,
{
}

/// A message that is accepted is the one that came, under its own id or a new one; it is
/// accepted where its channel is there, it is not too large and its publisher may send it.
pub proof fn accepted_message_is_the_one_that_came(
    x: &mut EnhancedPubSub,
    name: &str,
    message: Message,
    now: u128,
    tracker: &mut ResourceTracker,
    r: Result<Admitted, DaggerError>,
)
    requires
        call_ensures(EnhancedPubSub::accept, (x, name, message, now, tracker), r),
    ensures
        !old(x).channels@.contains_key(name@) ==> (r matches Err(DaggerError::Validation { message: m, .. }) && m@ == "Channel '"@
            + name@ + "' not found"@),
        r matches Ok(a) ==> a.message.payload == message.payload && a.message.publisher_id == message.publisher_id
            && a.message.headers == message.headers && a.message.key == message.key && a.message.priority == message.priority,
        r is Ok && message.id@.len() > 0 ==> r->Ok_0.message.id@ == message.id@ && r->Ok_0.size == estimated_size(message),
        r is Ok && message.id@.len() == 0 ==> r->Ok_0.message.id@.len() == "msg_"@.len() + 36
            && r->Ok_0.message.id@.take("msg_"@.len() as int) == "msg_"@,
        r is Ok ==> r->Ok_0.size <= old(tracker).limits().max_message_size_bytes,
        final(x).channels == old(x).channels && final(x).config == old(x).config,
{
    let (fresh, sent) = choose|fresh: Seq<char>, sent: Message|
        #![trigger is_identified(message, sent, fresh)]
        fresh.len() == 36 && is_identified(message, sent, fresh) && estimated_size(sent) == identified_size(message)
            && admission(*old(x), *final(x), *old(tracker), *final(tracker), name@, sent, now, r);
    assert(("msg_"@ + fresh).take("msg_"@.len() as int) =~= "msg_"@);
}

/// A subscription that is not active is not ready.
pub proof fn inactive_subscription_is_refused(s: &Subscription, r: Result<(), DaggerError>)
    requires
        call_ensures(Subscription::ready, (s,), r),
    ensures
        r is Ok <==> s.state.is_active,
        r matches Err(e) ==> (e matches DaggerError::Channel { channel, message, .. } && channel@ == s.subscription_name@ && message@
            == "Subscription is inactive"@),
{
}

/// A message that does not wait to be acknowledged is named, and nothing changes.
pub proof fn unknown_message_is_not_acknowledged(
    s: &mut Subscription,
    x: &mut EnhancedPubSub,
    id: &str,
    r: Result<(), DaggerError>,
)
    requires
        call_ensures(Subscription::acknowledge, (s, x, id), r),
    ensures
        r is Ok <==> old(s).state.unacked_messages@.contains_key(id@),
        r matches Err(e) ==> (e matches DaggerError::Validation { message, .. } && message@ == "Message '"@ + id@
            + "' not found in unacked messages"@) && *final(s) == *old(s) && *final(x) == *old(x),
{
}

} // verus!
