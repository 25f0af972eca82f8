//! What is done with a message: sending it, handling it once, and sending it again after a
//! restart.

use super::executor::PubSubExecutor;
use super::message::{AgentMetadata, PubSubConfig, PubSubError};
use crate::compression::{compress, decompress, decompressed};
use crate::dag_flow::cache::{lookup, Cache};
use crate::dag_flow::config::{calculate_retry_delay, retry_delay, HumanTimeoutAction};
use crate::string_map::StringSet;
use crate::text::{cat4, dec, dec_signed, decimal, owned, pieces, signed_decimal, split, views};
use crate::value::{member, Json, Value};
use vstd::prelude::*;

verus! {

/// The attempts that are left to send a message.
#[derive(Debug, Clone, Copy, PartialEq, Eq, Structural)]
pub struct PublishAttempts {
    pub left: u32,
}

/// Why a message was given up.
pub open spec fn given_up_text(attempts: nat, error: Seq<char>) -> Seq<char> {
    "Failed to broadcast after "@ + decimal(attempts) + " attempts: "@ + error
}

impl PublishAttempts {
    /// Attempts are left, and no more than there were.
    pub open spec fn wf(&self, config: PubSubConfig) -> bool {
        0 < self.left <= config.max_attempts
    }

    /// All attempts are left.
    pub fn new(config: &PubSubConfig) -> (r: Self)
        requires
            config.max_attempts > 0,
        ensures
            r.left == config.max_attempts,
            r.wf(*config),
    {
        PublishAttempts { left: config.max_attempts }
    }

    /// How many attempts will have failed once the present one has: the power to which the
    /// factor of a growing delay is raised.
    pub fn failures(&self, config: &PubSubConfig) -> (r: u32)
        requires
            self.wf(*config),
        ensures
            r == config.max_attempts - self.left + 1,
    {
        config.max_attempts - self.left + 1
    }

    /// What follows a failed attempt: another one after so many seconds, or, after the last,
    /// the error. `grown` is the unbounded growing delay.
    pub fn after_failure(&mut self, config: &PubSubConfig, error: &str, grown: u64) -> (r: Result<u64, PubSubError>)
        requires
            old(self).wf(*config),
        ensures
            final(self).left == old(self).left - 1,
            r is Ok <==> old(self).left > 1,
            r matches Ok(delay) ==> delay == retry_delay(config.retry_strategy, grown) && final(self).wf(*config),
            r matches Err(e) ==> (e matches PubSubError::ExecutionError(s) && s@ == given_up_text(
                config.max_attempts as nat,
                error@,
            )),
    {
        self.left = self.left - 1;
        if self.left > 0 {
            return Ok(calculate_retry_delay(&config.retry_strategy, grown));
        }
        let count = dec(config.max_attempts as u64);
        Err(
            PubSubError::ExecutionError(
                cat4("Failed to broadcast after ", count.as_str(), " attempts: ", error),
            ),
        )
    }
}

/// The id of a message by its channel and the time at which it came.
pub open spec fn message_id_text(channel: Seq<char>, millis: int) -> Seq<char> {
    "msg_"@ + channel + "_"@ + signed_decimal(millis)
}

/// Whether a message that came over a channel at a time, in milliseconds, is to be handled:
/// of those that came at the same time over the same channel, only the first. It is noted.
pub fn is_first(processed: &mut StringSet, channel: &str, millis: i64) -> (r: bool)
    ensures
        final(processed)@ == old(processed)@.insert(message_id_text(channel@, millis as int)),
        r == !old(processed)@.contains(message_id_text(channel@, millis as int)),
{
    let number = dec_signed(millis);
    let id = cat4("msg_", channel, "_", number.as_str());
    processed.insert(id)
}

/// The channel that the id of a stored message names: what stands behind its first `_`.
pub open spec fn channel_in_id(id: Seq<char>) -> Seq<char> {
    let p = pieces(id, '_');
    if p.len() > 1 {
        p[1]
    } else {
        "unknown"@
    }
}

/// The channel on which a stored message is sent again, where the cache does not hold it
/// among those that were handled.
pub fn replay_channel(cache: &Cache, id: &str) -> (r: Option<String>)
    ensures
        r is Some <==> lookup(cache@, channel_in_id(id@), id@) is None,
        r matches Some(c) ==> c@ == channel_in_id(id@),
{
    let parts = split(id, '_');
    let ghost p = pieces(id@, '_');
    let channel: String = if parts.len() > 1 {
        proof {
            assert(views(parts@)[1] == parts@[1]@);
        }
        parts[1].clone()
    } else {
        owned("unknown")
    };
    match cache.get_value(channel.as_str(), id) {
        Some(_) => None,
        None => Some(channel),
    }
}

/// The channels of agents in the order in which they are made again: for each agent, where
/// it listens, then where it publishes.
pub open spec fn channels_of(loaded: Seq<(String, AgentMetadata)>) -> Seq<Seq<char>>
    decreases loaded.len(),
{
    if loaded.len() == 0 {
        Seq::empty()
    } else {
        channels_of(loaded.drop_last()) + views(loaded.last().1.subscriptions@) + views(loaded.last().1.publications@)
    }
}

fn append_all(to: &mut Vec<String>, from: &Vec<String>)
    ensures
        views(final(to)@) == views(old(to)@) + views(from@),
{
    let mut i: usize = 0;
    proof {
        assert(views(to@) =~= views(old(to)@) + views(from@).take(0));
    }
    while i < from.len()
        invariant
            i <= from@.len(),
            views(to@) == views(old(to)@) + views(from@).take(i as int),
        decreases from.len() - i,
    {
        let ghost before = to@;
        to.push(from[i].clone());
        proof {
            assert(views(to@) =~= views(before).push(from@[i as int]@));
            assert(views(to@) =~= views(old(to)@) + views(from@).take(i + 1));
        }
        i = i + 1;
    }
    proof {
        assert(views(from@).take(i as int) =~= views(from@));
    }
}

/// The channels of agents whose records were loaded, in the order in which they are made.
pub fn restored_channels(loaded: &Vec<(String, AgentMetadata)>) -> (r: Vec<String>)
    ensures
        views(r@) == channels_of(loaded@),
{
    let mut r: Vec<String> = Vec::new();
    let mut i: usize = 0;
    proof {
        assert(loaded@.take(0) =~= Seq::<(String, AgentMetadata)>::empty());
        assert(views(r@) =~= Seq::<Seq<char>>::empty());
    }
    while i < loaded.len()
        invariant
            i <= loaded@.len(),
            views(r@) == channels_of(loaded@.take(i as int)),
        decreases loaded.len() - i,
    {
        proof {
            assert(loaded@.take(i + 1).drop_last() =~= loaded@.take(i as int));
            assert(loaded@.take(i + 1).last() == loaded@[i as int]);
        }
        append_all(&mut r, &loaded[i].1.subscriptions);
        append_all(&mut r, &loaded[i].1.publications);
        i = i + 1;
    }
    proof {
        assert(loaded@.take(i as int) =~= loaded@);
    }
    r
}

/// The state as it is stored.
pub fn save_state(serialized: &Vec<u8>) -> (r: Result<Vec<u8>, String>)
    ensures
        r is Ok,
        r matches Ok(v) ==> decompressed(v@) == Some(serialized@),
{
    compress(serialized.as_slice())
}

/// The state that was stored, where it can be read.
pub fn load_state(stored: &Vec<u8>) -> (r: Result<Vec<u8>, String>)
    ensures
        r is Ok <==> decompressed(stored@) is Some,
        r matches Ok(v) ==> decompressed(stored@) == Some(v@),
{
    decompress(stored.as_slice())
}

/// A state that was saved can be loaded, and what is loaded is what was saved.
pub proof fn saved_state_is_loaded(
    serialized: &Vec<u8>,
    stored: Result<Vec<u8>, String>,
    loaded: Result<Vec<u8>, String>,
)
    requires
        call_ensures(save_state, (serialized,), stored),
        stored matches Ok(v) ==> call_ensures(load_state, (&v,), loaded),
    ensures
        stored is Ok,
        loaded is Ok,
        loaded matches Ok(v) ==> v@ == serialized@,
{
}

/// What ended the wait for a human.
#[derive(Debug, Clone, Copy, PartialEq, Eq, Structural)]
pub enum HumanEvent {
    /// Nobody answered in time.
    TimedOut,
    /// Somebody answered.
    Answered,
    /// The wait was cancelled.
    Cancelled,
}

impl<A> PubSubExecutor<A> {
    /// What follows the wait for a human. Where nobody answered and the settings say so, the
    /// system stops, and its state has to be saved.
    pub fn after_human_wait(&mut self, event: HumanEvent) -> (r: Result<(), String>)
        ensures
            ({
                let paused = event == HumanEvent::TimedOut && old(self).config.human_timeout_action
                    == HumanTimeoutAction::Pause;
                &&& *final(self) == (if paused {
                    PubSubExecutor { stopped: true, ..*old(self) }
                } else {
                    *old(self)
                })
                &&& r is Ok <==> !paused && event != HumanEvent::Cancelled
                &&& r matches Err(e) ==> e@ == (if paused {
                    "Paused for human input"@
                } else {
                    "Human interrupt cancelled"@
                })
            }),
    {
        match event {
            HumanEvent::TimedOut => match self.config.human_timeout_action {
                HumanTimeoutAction::Autopilot => Ok(()),
                HumanTimeoutAction::Pause => {
                    self.stopped = true;
                    Err(owned("Paused for human input"))
                },
            },
            HumanEvent::Answered => Ok(()),
            HumanEvent::Cancelled => Err(owned("Human interrupt cancelled")),
        }
    }
}

/// The agents that a configuration lists.
pub open spec fn listed_agents(config: Json) -> Seq<Json> {
    match member(config, "agents"@) {
        Some(Json::Array(items)) => items,
        _ => Seq::empty(),
    }
}

/// The name of the agent at `i` in a configuration; nothing behind the last.
pub fn agent_name_at(config: &Value, i: usize) -> (r: Result<Option<String>, PubSubError>)
    ensures
        ({
            let items = listed_agents(config@);
            let name = member(items[i as int], "name"@);
            &&& i >= items.len() ==> r == Ok::<Option<String>, PubSubError>(None)
            &&& i < items.len() ==> {
                &&& r is Ok <==> (name is Some && name->0 is String)
                &&& r matches Ok(n) ==> n is Some && name == Some(Json::String(n->0@))
                &&& r matches Err(e) ==> (e matches PubSubError::ValidationError(s) && s@ == "Missing agent name"@)
            }
        }),
{
    match config.get("agents") {
        Some(agents) => match agents.as_array() {
            Some(items) => {
                if i >= items.len() {
                    return Ok(None);
                }
                match items[i].get("name") {
                    Some(name) => match name.as_str() {
                        Some(text) => Ok(Some(owned(text))),
                        None => Err(PubSubError::ValidationError(owned("Missing agent name"))),
                    },
                    None => Err(PubSubError::ValidationError(owned("Missing agent name"))),
                }
            },
            None => Ok(None),
        },
        None => Ok(None),
    }
}

/// A failed attempt leaves one fewer; another follows after the delay that the strategy asks for,
/// but after the last the message is given up with the error.
pub proof fn message_is_given_up_after_the_last_attempt(
    a: &mut PublishAttempts,
    config: &PubSubConfig,
    error: &str,
    grown: u64,
    r: Result<u64, PubSubError>,
)
    requires
        call_ensures(PublishAttempts::after_failure, (a, config, error, grown), r),
    ensures
        final(a).left == old(a).left - 1,
        r is Ok <==> old(a).left > 1,
        r matches Err(e) ==> (e matches PubSubError::ExecutionError(s) && s@ == "Failed to broadcast after "@ + decimal(
            config.max_attempts as nat,
        ) + " attempts: "@ + error@),
        r matches Ok(delay) ==> (config.retry_strategy matches crate::dag_flow::config::RetryStrategy::Linear { delay_secs }
            ==> delay == delay_secs),
        r matches Ok(delay) ==> (config.retry_strategy is Immediate ==> delay == 0),
        r matches Ok(delay) ==> (config.retry_strategy matches crate::dag_flow::config::RetryStrategy::Exponential {
            initial_delay_secs,
            max_delay_secs,
            multiplier,
        } ==> delay <= max_delay_secs && (grown <= max_delay_secs ==> delay == grown)),
{
}

/// Of messages that came over a channel at the same time only the first is handled; those over
/// another channel, or at another time, do not count against it.
pub proof fn message_is_handled_once(
    a: &mut StringSet,
    channel: &str,
    millis: i64,
    first: bool,
    b: &mut StringSet,
    second: bool,
)
    requires
        call_ensures(is_first, (a, channel, millis), first),
        call_ensures(is_first, (b, channel, millis), second),
    ensures
        first <==> !old(a)@.contains("msg_"@ + channel@ + "_"@ + signed_decimal(millis as int)),
        final(a)@.contains("msg_"@ + channel@ + "_"@ + signed_decimal(millis as int)),
        b_follows(old(b)@, final(a)@) ==> !second,
        forall|k: Seq<char>|
            k != "msg_"@ + channel@ + "_"@ + signed_decimal(millis as int) ==> (#[trigger] final(a)@.contains(k) <==> old(a)@.contains(k)),
{
    assert(final(a)@.contains(message_id_text(channel@, millis as int)));
}

/// Whether all that was noted before is still noted.
pub open spec fn b_follows(later: Set<Seq<char>>, before: Set<Seq<char>>) -> bool {
    forall|k: Seq<char>| #[trigger] before.contains(k) ==> later.contains(k)
}

/// A stored message is sent again on the channel that its id names behind the first underscore,
/// unless the cache holds it there.
pub proof fn unhandled_message_is_sent_again(cache: &Cache, id: &str, r: Option<String>, channel: Seq<char>, time: Seq<char>)
    requires
        call_ensures(replay_channel, (cache, id), r),
        id@ == "msg_"@ + channel + "_"@ + time,
        !channel.contains('_'),
    ensures
        r is None <==> cache@.contains_key(channel) && cache@[channel].contains_key(id@),
        r matches Some(c) ==> c@ == channel,
{
    reveal_strlit("msg_");
    reveal_strlit("msg");
    reveal_strlit("_");
    let msg = seq!['m', 's', 'g'];
    assert("msg_"@ =~= msg + seq!['_']);
    assert("_"@ =~= seq!['_']);
    assert(id@ =~= msg + seq!['_'] + (channel + seq!['_'] + time));
    assert(!msg.contains('_'));
    crate::text::plain_text_is_one_piece(msg, '_');
    crate::text::plain_text_is_one_piece(channel, '_');
    crate::text::separator_parts_the_pieces(msg, channel + seq!['_'] + time, '_');
    crate::text::separator_parts_the_pieces(channel, time, '_');
    assert(pieces(id@, '_')[1] == channel);
    crate::text::lemma_pieces_nonempty(time, '_');
}

/// The channels that are made again are those on which a loaded agent listens or publishes.
pub proof fn all_channels_are_restored(loaded: &Vec<(String, AgentMetadata)>, r: Vec<String>, c: Seq<char>)
    requires
        call_ensures(restored_channels, (loaded,), r),
    ensures
        views(r@).contains(c) <==> exists|i: int|
            0 <= i < loaded@.len() && (views((#[trigger] loaded@[i]).1.subscriptions@).contains(c) || views(
                loaded@[i].1.publications@,
            ).contains(c)),
{
    lemma_channels(loaded@, c);
}

proof fn lemma_channels(loaded: Seq<(String, AgentMetadata)>, c: Seq<char>)
    ensures
        channels_of(loaded).contains(c) <==> exists|i: int|
            0 <= i < loaded.len() && (views((#[trigger] loaded[i]).1.subscriptions@).contains(c) || views(
                loaded[i].1.publications@,
            ).contains(c)),
    decreases loaded.len(),
{
    if loaded.len() > 0 {
        let front = loaded.drop_last();
        lemma_channels(front, c);
        let a = channels_of(front);
        let s = views(loaded.last().1.subscriptions@);
        let p = views(loaded.last().1.publications@);
        let all = channels_of(loaded);
        assert(all == a + s + p);
        assert(all.contains(c) <==> a.contains(c) || s.contains(c) || p.contains(c)) by {
            if a.contains(c) {
                let k = choose|k: int| 0 <= k < a.len() && a[k] == c;
                assert(all[k] == c);
            }
            if s.contains(c) {
                let k = choose|k: int| 0 <= k < s.len() && s[k] == c;
                assert(all[a.len() + k] == c);
            }
            if p.contains(c) {
                let k = choose|k: int| 0 <= k < p.len() && p[k] == c;
                assert(all[a.len() + s.len() + k] == c);
            }
            if all.contains(c) {
                let k = choose|k: int| 0 <= k < all.len() && all[k] == c;
                if k < a.len() {
                    assert(a[k] == c);
                } else if k < a.len() + s.len() {
                    assert(s[k - a.len()] == c);
                } else {
                    assert(p[k - a.len() - s.len()] == c);
                }
            }
        }
        if a.contains(c) {
            let i = choose|i: int|
                0 <= i < front.len() && (views((#[trigger] front[i]).1.subscriptions@).contains(c) || views(
                    front[i].1.publications@,
                ).contains(c));
            assert(loaded[i] == front[i]);
        }
        if exists|i: int|
            0 <= i < loaded.len() && (views((#[trigger] loaded[i]).1.subscriptions@).contains(c) || views(
                loaded[i].1.publications@,
            ).contains(c)) {
            let i = choose|i: int|
                0 <= i < loaded.len() && (views((#[trigger] loaded[i]).1.subscriptions@).contains(c) || views(
                    loaded[i].1.publications@,
                ).contains(c));
            if i < front.len() {
                assert(front[i] == loaded[i]);
            }
        }
    }
}

/// Where nobody answered and the settings say to pause, the system stops and says so; a wait that
/// was cancelled says so too; else it goes on.
pub proof fn unanswered_wait_pauses<A>(x: &mut PubSubExecutor<A>, event: HumanEvent, r: Result<(), String>)
    requires
        call_ensures(PubSubExecutor::<A>::after_human_wait, (x, event), r),
    ensures
        event is Answered ==> r is Ok && final(x).stopped == old(x).stopped,
        event is Cancelled ==> (r matches Err(e) && e@ == "Human interrupt cancelled"@) && final(x).stopped == old(x).stopped,
        event is TimedOut && old(x).config.human_timeout_action is Pause ==> (r matches Err(e) && e@ == "Paused for human input"@)
            && final(x).stopped,
        event is TimedOut && !(old(x).config.human_timeout_action is Pause) ==> r is Ok && final(x).stopped == old(x).stopped,
{
}

/// The agents that are to be restored are those that the record lists, each by its name; one
/// without a name is refused.
pub proof fn recorded_agents_are_named(config: &Value, i: usize, r: Result<Option<String>, PubSubError>, agents: Option<&Value>)
    requires
        call_ensures(agent_name_at, (config, i), r),
        call_ensures(Value::get, (config, "agents"), agents),
    ensures
        agents is None ==> r is Ok && r->Ok_0 is None,
        agents is Some && !(agents->0@ is Array) ==> r is Ok && r->Ok_0 is None,
        agents is Some && agents->0@ is Array && i >= agents->0@->Array_0.len() ==> r is Ok && r->Ok_0 is None,
        agents is Some && agents->0@ is Array && i < agents->0@->Array_0.len() ==> {
            let name = member(agents->0@->Array_0[i as int], "name"@);
            &&& name is Some && name->0 is String ==> (r matches Ok(n) && n is Some && name->0 == Json::String(n->0@))
            &&& !(name is Some && name->0 is String) ==> (r matches Err(PubSubError::ValidationError(s)) && s@
                == "Missing agent name"@)
        },
{
}

} // verus!
