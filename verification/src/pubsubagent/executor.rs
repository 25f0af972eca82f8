//! A system of agents: who listens where, what may be published, and what is kept.

use super::message::{AgentMetadata, AgentOffer, Message, MetadataView, PubSubConfig, PubSubError};
use crate::dag_flow::run::{as_signed, to_signed};
use crate::dag_flow::tree::{ExecutionTree, Timestamp, TreeView};
use crate::schema::{check, satisfies, Verdict};
use crate::string_map::{StringMap, StringSet};
use crate::text::{
    cat2, cat5, clone_list, contains, dec, dec_signed, decimal, holds_text, owned, same, signed_decimal, views,
};
use vstd::prelude::*;

verus! {

/// An agent with what is kept of it.
pub struct AgentEntry<A> {
    pub agent: A,
    pub metadata: AgentMetadata,
}

/// A system of agents of the type `A`. The channels themselves are kept outside, under the
/// names that are listed here.
pub struct PubSubExecutor<A> {
    pub agent_registry: StringMap<AgentEntry<A>>,
    pub channels: StringSet,
    pub config: PubSubConfig,
    pub execution_tree: ExecutionTree,
    pub stopped: bool,
    pub start_time: Timestamp,
    pub current_agent_id: Option<String>,
}

/// What is kept of a channel.
#[derive(Debug)]
pub struct ChannelRecord {
    pub channel: String,
    pub capacity: usize,
    pub created_at: String,
    pub active_subscribers: u64,
}

/// What has to be done so that a channel exists.
#[derive(Debug)]
pub enum ChannelStep {
    /// It has to be made with the capacity of the record, and the record has to be stored.
    Create(ChannelRecord),
    /// It exists, and the record has to be stored again.
    Update(ChannelRecord),
    /// It exists, and there is no record of it.
    Keep,
}

/// The state of a channel.
#[derive(Debug)]
pub struct ChannelStatus {
    pub name: String,
    pub subscriber_count: usize,
    pub message_count: usize,
    pub created_at: String,
    pub is_active: bool,
}

/// Where an agent listens, and as whom.
#[derive(Debug)]
pub struct Listener {
    pub agent: String,
    pub node_id: String,
    pub channel: String,
}

/// What a [`Listener`] says.
#[verifier::ext_equal]
pub struct ListenerView {
    pub agent: Seq<char>,
    pub node_id: Seq<char>,
    pub channel: Seq<char>,
}

impl View for Listener {
    type V = ListenerView;

    open spec fn view(&self) -> ListenerView {
        ListenerView { agent: self.agent@, node_id: self.node_id@, channel: self.channel@ }
    }
}

/// What a list of listeners says.
pub open spec fn listener_views(v: Seq<Listener>) -> Seq<ListenerView> {
    Seq::new(v.len(), |i: int| v[i]@)
}

/// The listeners of one agent: one for each channel that it subscribes to and that exists.
pub open spec fn agent_listeners(name: Seq<char>, node: Seq<char>, subscriptions: Seq<Seq<char>>, channels: Set<Seq<char>>) -> Seq<
    ListenerView,
>
    decreases subscriptions.len(),
{
    if subscriptions.len() == 0 {
        Seq::empty()
    } else {
        let before = agent_listeners(name, node, subscriptions.drop_last(), channels);
        let channel = subscriptions.last();
        if channels.contains(channel) {
            before.push(ListenerView { agent: name, node_id: node, channel })
        } else {
            before
        }
    }
}

/// The listeners of the first `n` agents; the id of each is its name with `suffix`.
pub open spec fn all_listeners<A>(
    agents: Seq<(String, AgentEntry<A>)>,
    suffix: Seq<char>,
    channels: Set<Seq<char>>,
    n: int,
) -> Seq<ListenerView>
    decreases n,
{
    if n <= 0 {
        Seq::empty()
    } else {
        all_listeners(agents, suffix, channels, n - 1) + agent_listeners(
            agents[n - 1].0@,
            agents[n - 1].0@ + suffix,
            views(agents[n - 1].1.metadata.subscriptions@),
            channels,
        )
    }
}

/// Whether an agent subscribes to `channel`.
pub open spec fn subscribes<A>(e: AgentEntry<A>, channel: Seq<char>) -> bool {
    holds_text(e.metadata.subscriptions@, channel)
}

/// Whether an agent listens or publishes on `channel`.
pub open spec fn uses<A>(e: AgentEntry<A>, channel: Seq<char>) -> bool {
    subscribes(e, channel) || holds_text(e.metadata.publications@, channel)
}

/// Whether some agent listens or publishes on `channel`.
pub open spec fn used<A>(agents: Seq<(String, AgentEntry<A>)>, channel: Seq<char>) -> bool {
    exists|i: int| 0 <= i < agents.len() && uses((#[trigger] agents[i]).1, channel)
}

/// Whether every agent that subscribes to `channel` takes the payload.
pub open spec fn accepted<A>(agents: Seq<(String, AgentEntry<A>)>, channel: Seq<char>, payload: Seq<char>) -> bool {
    forall|i: int|
        0 <= i < agents.len() && subscribes((#[trigger] agents[i]).1, channel) ==> satisfies(
            agents[i].1.metadata.input_schema@,
            payload,
        ) == Some(true)
}

/// The agent at `i` is the first that does not take the payload.
pub open spec fn first_refusing<A>(agents: Seq<(String, AgentEntry<A>)>, channel: Seq<char>, payload: Seq<char>, i: int) -> bool {
    &&& 0 <= i < agents.len()
    &&& subscribes(agents[i].1, channel)
    &&& satisfies(agents[i].1.metadata.input_schema@, payload) != Some(true)
    &&& accepted(agents.take(i), channel, payload)
}

/// What a verdict on a payload means for its publication.
pub open spec fn payload_problem(v: Verdict) -> Option<Seq<char>> {
    match v {
        Verdict::Valid => None,
        Verdict::Invalid(e) => Some("Message payload validation failed: "@ + e@),
        Verdict::NoSchema(e) => Some(e@),
        Verdict::NoDocument(e) => Some("Message payload is not readable: "@ + e@),
    }
}

/// What a verdict on a payload means for its publication.
pub fn judge_payload(v: Verdict) -> (r: Result<(), PubSubError>)
    ensures
        r is Ok <==> v is Valid,
        r matches Err(e) ==> (e matches PubSubError::ValidationError(s) && payload_problem(v) == Some(s@)),
{
    match v {
        Verdict::Valid => Ok(()),
        Verdict::Invalid(e) => Err(
            PubSubError::ValidationError(cat2("Message payload validation failed: ", e.as_str())),
        ),
        Verdict::NoSchema(e) => Err(PubSubError::ValidationError(e)),
        Verdict::NoDocument(e) => Err(
            PubSubError::ValidationError(cat2("Message payload is not readable: ", e.as_str())),
        ),
    }
}

/// The settings of a new system, where they are in order.
pub fn checked_config(config: Option<PubSubConfig>) -> (r: Result<PubSubConfig, PubSubError>)
    ensures
        config matches Some(c) ==> {
            &&& r is Ok <==> c.problem() is None
            &&& r matches Ok(d) ==> d == c
            &&& r matches Err(e) ==> (e matches PubSubError::ValidationError(s) && c.problem() == Some(s@))
        },
        config is None ==> r is Ok && call_ensures(PubSubConfig::default, (), r->Ok_0),
{
    let config: PubSubConfig = match config {
        Some(c) => c,
        None => PubSubConfig::default(),
    };
    match config.validate() {
        Ok(()) => Ok(config),
        Err(e) => Err(PubSubError::ValidationError(e)),
    }
}

/// The channels of an agent in the order in which they are made: where it listens, then
/// where it publishes.
pub fn registration_channels(offer: &AgentOffer) -> (r: Result<Vec<String>, PubSubError>)
    ensures
        r is Ok <==> offer.subscriptions@.len() > 0,
        r matches Ok(v) ==> views(v@) == views(offer.subscriptions@) + views(offer.publications@),
        r matches Err(e) ==> (e matches PubSubError::ValidationError(s) && s@
            == "Agent must have at least one subscription"@),
{
    if offer.subscriptions.len() == 0 {
        return Err(PubSubError::ValidationError(owned("Agent must have at least one subscription")));
    }
    Ok(chained(&offer.subscriptions, &offer.publications))
}

fn chained(a: &Vec<String>, b: &Vec<String>) -> (r: Vec<String>)
    ensures
        views(r@) == views(a@) + views(b@),
{
    let mut r = clone_list(a);
    let mut i: usize = 0;
    proof {
        assert(views(r@) =~= views(a@) + views(b@).take(0));
    }
    while i < b.len()
        invariant
            i <= b@.len(),
            views(r@) == views(a@) + views(b@).take(i as int),
        decreases b.len() - i,
    {
        let ghost before = r@;
        r.push(b[i].clone());
        proof {
            assert(views(r@) =~= views(before).push(b@[i as int]@));
            assert(views(r@) =~= views(a@) + views(b@).take(i + 1));
        }
        i = i + 1;
    }
    proof {
        assert(views(b@).take(i as int) =~= views(b@));
    }
    r
}

/// The state of a channel, from what was counted on it and what is kept of it.
pub fn channel_status(name: &str, subscribers: usize, messages: usize, created_at: Option<String>) -> (r: ChannelStatus)
    ensures
        r.name@ == name@,
        r.subscriber_count == subscribers,
        r.message_count == messages,
        r.created_at@ == (if created_at is Some {
            created_at->0@
        } else {
            Seq::empty()
        }),
        r.is_active == (subscribers > 0),
{
    ChannelStatus {
        name: owned(name),
        subscriber_count: subscribers,
        message_count: messages,
        created_at: match created_at {
            Some(t) => t,
            None => String::new(),
        },
        is_active: subscribers > 0,
    }
}

impl<A> PubSubExecutor<A> {
    /// A system without agents and channels.
    pub fn new(config: PubSubConfig, start_time: Timestamp) -> (r: Self)
        ensures
            r.agent_registry@ == Map::<Seq<char>, AgentEntry<A>>::empty(),
            r.channels@ == Set::<Seq<char>>::empty(),
            r.config == config,
            r.execution_tree.wf(),
            r.execution_tree@ == (TreeView { nodes: Seq::empty(), edges: Seq::empty(), labels: Seq::empty() }),
            !r.stopped,
            r.start_time == start_time,
            r.current_agent_id is None,
    {
        PubSubExecutor {
            agent_registry: StringMap::new(),
            channels: StringSet::new(),
            config,
            execution_tree: ExecutionTree::new(),
            stopped: false,
            start_time,
            current_agent_id: None,
        }
    }

    /// Says what has to be done so that a channel exists, and lists it. `stored` is the record
    /// that is kept of it, `subscribers` how many receive from it.
    pub fn ensure_channel(&mut self, channel: &str, created_at: &str, stored: Option<ChannelRecord>, subscribers: u64) -> (r:
        ChannelStep)
        ensures
            *final(self) == (PubSubExecutor { channels: final(self).channels, ..*old(self) }),
            final(self).channels@ == old(self).channels@.insert(channel@),
            !old(self).channels@.contains(channel@) ==> (r matches ChannelStep::Create(c) && c.channel@ == channel@
                && c.capacity == old(self).config.channel_capacity() && c.created_at@ == created_at@
                && c.active_subscribers == 0),
            old(self).channels@.contains(channel@) ==> match stored {
                Some(c) => r == ChannelStep::Update(ChannelRecord { active_subscribers: subscribers, ..c }),
                None => r == ChannelStep::Keep,
            },
    {
        if self.channels.contains(channel) {
            proof {
                assert(self.channels@ =~= self.channels@.insert(channel@));
            }
            return match stored {
                Some(c) => {
                    let mut c: ChannelRecord = c;
                    c.active_subscribers = subscribers;
                    ChannelStep::Update(c)
                },
                None => ChannelStep::Keep,
            };
        }
        self.channels.insert(owned(channel));
        ChannelStep::Create(
            ChannelRecord {
                channel: owned(channel),
                capacity: self.config.capacity(),
                created_at: owned(created_at),
                active_subscribers: 0,
            },
        )
    }

    /// Adds a channel to those that an agent subscribes to.
    pub fn subscribe_agent(&mut self, agent_name: &str, channel: &str) -> (r: Result<(), PubSubError>)
        ensures
            r is Ok <==> old(self).agent_registry@.contains_key(agent_name@),
            r matches Err(e) ==> (e matches PubSubError::AgentNotFound(s) && s@ == agent_name@) && *final(self) == *old(self),
            r is Ok ==> {
                let before = old(self).agent_registry@[agent_name@];
                let after = final(self).agent_registry@[agent_name@];
                &&& final(self).agent_registry@ == old(self).agent_registry@.insert(agent_name@, after)
                &&& after.agent == before.agent
                &&& after.metadata@ == (MetadataView {
                    subscriptions: before.metadata@.subscriptions.push(channel@),
                    ..before.metadata@
                })
                &&& *final(self) == (PubSubExecutor { agent_registry: final(self).agent_registry, ..*old(self) })
            },
    {
        if !self.agent_registry.contains_key(agent_name) {
            return Err(PubSubError::AgentNotFound(owned(agent_name)));
        }
        match self.agent_registry.remove(agent_name) {
            Some(entry) => {
                let mut entry: AgentEntry<A> = entry;
                let ghost before = entry.metadata@;
                entry.metadata.subscriptions.push(owned(channel));
                proof {
                    assert(entry.metadata@.subscriptions =~= before.subscriptions.push(channel@));
                }
                self.agent_registry.insert(owned(agent_name), entry);
                proof {
                    assert(self.agent_registry@ =~= old(self).agent_registry@.insert(agent_name@, entry));
                }
                Ok(())
            },
            None => Err(PubSubError::AgentNotFound(owned(agent_name))),
        }
    }

    fn is_used(&self, channel: &str) -> (r: bool)
        ensures
            r == used(self.agent_registry.pairs(), channel@),
    {
        let n: usize = self.agent_registry.len();
        let ghost pairs = self.agent_registry.pairs();
        let mut i: usize = 0;
        while i < n
            invariant
                i <= n,
                n == pairs.len(),
                pairs == self.agent_registry.pairs(),
                forall|j: int| 0 <= j < i ==> !uses((#[trigger] pairs[j]).1, channel@),
            decreases n - i,
        {
            let entry = self.agent_registry.value_at(i);
            if contains(&entry.metadata.subscriptions, channel) || contains(&entry.metadata.publications, channel) {
                proof {
                    assert(uses(pairs[i as int].1, channel@));
                }
                return true;
            }
            i = i + 1;
        }
        false
    }

    /// Whether a channel is listed, has no receivers and is of no use to any agent.
    pub open spec fn unused(&self, receivers: Map<Seq<char>, usize>, channel: Seq<char>) -> bool {
        &&& self.channels@.contains(channel)
        &&& !used(self.agent_registry.pairs(), channel)
        &&& !receivers.contains_key(channel) || receivers[channel] == 0
    }

    /// Drops the channels that have no receivers and are of no use to any agent, and says
    /// which. `receivers` holds how many receive from each channel.
    pub fn cleanup_channels(&mut self, receivers: &StringMap<usize>) -> (r: Vec<String>)
        ensures
            *final(self) == (PubSubExecutor { channels: final(self).channels, ..*old(self) }),
            forall|c: Seq<char>| #[trigger] holds_text(r@, c) <==> old(self).unused(receivers@, c),
            forall|c: Seq<char>| #[trigger]
                final(self).channels@.contains(c) <==> old(self).channels@.contains(c) && !old(self).unused(receivers@, c),
    {
        let items = self.channels.items();
        let mut removed: Vec<String> = Vec::new();
        let mut i: usize = 0;
        while i < items.len()
            invariant
                i <= items@.len(),
                *self == (PubSubExecutor { channels: self.channels, ..*old(self) }),
                forall|c: Seq<char>| #[trigger] holds_text(items@, c) <==> old(self).channels@.contains(c),
                forall|c: Seq<char>| #[trigger]
                    holds_text(removed@, c) <==> old(self).unused(receivers@, c) && holds_text(items@.take(i as int), c),
                forall|c: Seq<char>| #[trigger]
                    self.channels@.contains(c) <==> old(self).channels@.contains(c) && !(old(self).unused(receivers@, c)
                        && holds_text(items@.take(i as int), c)),
            decreases items.len() - i,
        {
            let channel = items[i].as_str();
            let ghost before = removed@;
            let ghost was = self.channels@;
            let silent: bool = match receivers.get(channel) {
                Some(count) => *count == 0,
                None => true,
            };
            let drop: bool = silent && !self.is_used(channel);
            proof {
                assert(holds_text(items@, channel@)) by {
                    assert(items@[i as int]@ == channel@);
                }
                assert(drop == old(self).unused(receivers@, channel@));
                assert forall|c: Seq<char>| #[trigger] holds_text(items@.take(i + 1), c) <==> holds_text(
                    items@.take(i as int),
                    c,
                ) || c == channel@ by {
                    lemma_holds_take(items@, i as int, c);
                }
            }
            if drop {
                self.channels.remove(channel);
                removed.push(items[i].clone());
                proof {
                    assert forall|c: Seq<char>| #[trigger] holds_text(removed@, c) <==> holds_text(before, c) || c
                        == channel@ by {
                        lemma_holds_push(before, removed@.last(), c);
                    }
                }
            }
            i = i + 1;
        }
        proof {
            assert(items@.take(i as int) =~= items@);
        }
        removed
    }

    /// Registers an agent under the first channel that it subscribes to, and says what is kept
    /// of it. An agent that had the name is replaced.
    pub fn register_agent(&mut self, agent: A, offer: AgentOffer, registered_at: &str) -> (r: Result<AgentMetadata, PubSubError>)
        ensures
            r is Ok <==> offer.subscriptions@.len() > 0,
            r matches Err(e) ==> (e matches PubSubError::ValidationError(s) && s@
                == "Agent must have at least one subscription"@) && *final(self) == *old(self),
            r matches Ok(m) ==> {
                let name = offer.subscriptions@[0]@;
                let entry = final(self).agent_registry@[name];
                &&& m@ == (MetadataView {
                    name,
                    subscriptions: views(offer.subscriptions@),
                    publications: views(offer.publications@),
                    input_schema: offer.input_schema@,
                    output_schema: offer.output_schema@,
                    registered_at: registered_at@,
                })
                &&& entry.metadata@ == m@
                &&& entry.agent == agent
                &&& final(self).agent_registry@ == old(self).agent_registry@.insert(name, entry)
                &&& *final(self) == (PubSubExecutor { agent_registry: final(self).agent_registry, ..*old(self) })
            },
    {
        if offer.subscriptions.len() == 0 {
            return Err(PubSubError::ValidationError(owned("Agent must have at least one subscription")));
        }
        let name = offer.subscriptions[0].clone();
        let metadata = AgentMetadata {
            name: name.clone(),
            subscriptions: offer.subscriptions,
            publications: offer.publications,
            input_schema: offer.input_schema,
            output_schema: offer.output_schema,
            registered_at: owned(registered_at),
        };
        let kept = metadata.clone();
        self.agent_registry.insert(name, AgentEntry { agent, metadata });
        Ok(kept)
    }

    /// Registers the agent that supervises the others: it has to be the first.
    pub fn register_supervisor_agent(&mut self, agent: A, offer: AgentOffer, registered_at: &str) -> (r: Result<
        AgentMetadata,
        PubSubError,
    >)
        ensures
            r is Ok <==> old(self).agent_registry.pairs().len() == 0 && offer.subscriptions@.len() > 0,
            r matches Err(e) ==> *final(self) == *old(self) && if old(self).agent_registry.pairs().len() != 0 {
                e matches PubSubError::ExecutionError(s) && s@ == "Supervisor agent must be registered first"@
            } else {
                e matches PubSubError::ValidationError(s) && s@ == "Agent must have at least one subscription"@
            },
            r matches Ok(m) ==> {
                let name = offer.subscriptions@[0]@;
                let entry = final(self).agent_registry@[name];
                &&& entry.metadata@ == m@
                &&& m@.name == name
                &&& m@.subscriptions == views(offer.subscriptions@)
                &&& m@.publications == views(offer.publications@)
                &&& m@.input_schema == offer.input_schema@
                &&& m@.output_schema == offer.output_schema@
                &&& m@.registered_at == registered_at@
                &&& entry.agent == agent
                &&& final(self).agent_registry@ == old(self).agent_registry@.insert(name, entry)
                &&& *final(self) == (PubSubExecutor { agent_registry: final(self).agent_registry, ..*old(self) })
            },
    {
        if self.agent_registry.len() != 0 {
            return Err(PubSubError::ExecutionError(owned("Supervisor agent must be registered first")));
        }
        self.register_agent(agent, offer, registered_at)
    }

    fn check_payload(&self, channel: &str, payload: &str) -> (r: Result<(), PubSubError>)
        ensures
            r is Ok <==> accepted(self.agent_registry.pairs(), channel@, payload@),
            r matches Err(e) ==> exists|i: int, v: Verdict|
                #![trigger first_refusing(self.agent_registry.pairs(), channel@, payload@, i), payload_problem(v)]
                first_refusing(self.agent_registry.pairs(), channel@, payload@, i) && v.outcome() == satisfies(
                    self.agent_registry.pairs()[i].1.metadata.input_schema@,
                    payload@,
                ) && (e matches PubSubError::ValidationError(s) && payload_problem(v) == Some(s@)),
    {
        let n: usize = self.agent_registry.len();
        let ghost pairs = self.agent_registry.pairs();
        let mut i: usize = 0;
        while i < n
            invariant
                i <= n,
                n == pairs.len(),
                pairs == self.agent_registry.pairs(),
                accepted(pairs.take(i as int), channel@, payload@),
            decreases n - i,
        {
            let entry = self.agent_registry.value_at(i);
            let concerned: bool = contains(&entry.metadata.subscriptions, channel);
            if concerned {
                let v = check(entry.metadata.input_schema.as_str(), payload);
                let ghost verdict = v;
                match judge_payload(v) {
                    Ok(()) => {},
                    Err(e) => {
                        proof {
                            assert(first_refusing(pairs, channel@, payload@, i as int));
                            assert(!accepted(pairs, channel@, payload@)) by {
                                assert(subscribes(pairs[i as int].1, channel@));
                            }
                            assert(payload_problem(verdict) is Some);
                        }
                        return Err(e);
                    },
                }
            }
            proof {
                let a = pairs.take(i as int);
                let b = pairs.take(i + 1);
                assert forall|j: int| 0 <= j < b.len() && subscribes((#[trigger] b[j]).1, channel@) implies satisfies(
                    b[j].1.metadata.input_schema@,
                    payload@,
                ) == Some(true) by {
                    if j < i {
                        assert(a[j] == b[j]);
                    }
                }
            }
            i = i + 1;
        }
        proof {
            assert(pairs.take(i as int) =~= pairs);
        }
        Ok(())
    }

    /// Whether the system has run for longer than it may.
    pub open spec fn timed_out(&self, elapsed_secs: int) -> bool {
        self.config.timeout_seconds is Some && elapsed_secs > as_signed(self.config.timeout_seconds->0)
    }

    /// The agent in whose name messages are published.
    pub open spec fn publisher(&self) -> Seq<char> {
        match self.current_agent_id {
            Some(id) => id@,
            None => "default_agent"@,
        }
    }

    /// The message to publish on a channel: it names the channel and the publishing agent.
    /// Nothing is published once the system was stopped or has run for too long, nor what an
    /// agent that listens there does not take.
    pub fn publish(&self, channel: &str, message: Message, elapsed_secs: i64) -> (r: Result<Message, PubSubError>)
        ensures
            r is Ok <==> !self.stopped && !self.timed_out(elapsed_secs as int) && accepted(
                self.agent_registry.pairs(),
                channel@,
                message.payload@,
            ),
            r matches Ok(m) ==> {
                &&& m.channel is Some && m.channel->0@ == channel@
                &&& m.source@ == self.publisher()
                &&& m.payload == message.payload
                &&& m.timestamp == message.timestamp
            },
            r matches Err(e) ==> if self.stopped {
                e matches PubSubError::ExecutionError(s) && s@ == "Executor is stopped"@
            } else if self.timed_out(elapsed_secs as int) {
                e is TimeoutExceeded
            } else {
                exists|i: int, v: Verdict|
                    #![trigger first_refusing(self.agent_registry.pairs(), channel@, message.payload@, i), payload_problem(v)]
                    first_refusing(self.agent_registry.pairs(), channel@, message.payload@, i) && v.outcome() == satisfies(
                        self.agent_registry.pairs()[i].1.metadata.input_schema@,
                        message.payload@,
                    ) && (e matches PubSubError::ValidationError(s) && payload_problem(v) == Some(s@))
            },
    {
        if self.stopped {
            return Err(PubSubError::ExecutionError(owned("Executor is stopped")));
        }
        if let Some(timeout) = self.config.timeout_seconds {
            if elapsed_secs > to_signed(timeout) {
                return Err(PubSubError::TimeoutExceeded);
            }
        }
        match self.check_payload(channel, message.payload.as_str()) {
            Ok(()) => {},
            Err(e) => {
                return Err(e);
            },
        }
        let mut message: Message = message;
        message.channel = Some(owned(channel));
        message.source = match &self.current_agent_id {
            Some(id) => id.clone(),
            None => owned("default_agent"),
        };
        Ok(message)
    }

    /// Whether a channel that holds `len` messages is full.
    pub fn at_capacity(&self, len: usize) -> (r: bool)
        ensures
            r == (self.config.max_messages is Some && len >= self.config.channel_capacity()),
    {
        self.config.max_messages.is_some() && len >= self.config.capacity()
    }

    /// What is kept of an agent.
    pub fn get_agent_metadata(&self, name: &str) -> (r: Option<AgentMetadata>)
        ensures
            r is Some <==> self.agent_registry@.contains_key(name@),
            r matches Some(m) ==> m@ == self.agent_registry@[name@].metadata@,
    {
        match self.agent_registry.get(name) {
            Some(entry) => Some(entry.metadata.clone()),
            None => None,
        }
    }

    /// The message with which a run starts.
    pub fn initial_message(&self, channel: &str, payload: String, millis: i64, now: Timestamp) -> (r: Result<
        Message,
        PubSubError,
    >)
        ensures
            r is Ok <==> self.agent_registry.pairs().len() > 0,
            r matches Err(e) ==> e is NoAgentsRegistered,
            r matches Ok(m) ==> {
                &&& m.timestamp == now
                &&& m.source@ == "initial_"@ + signed_decimal(millis as int)
                &&& m.channel is Some && m.channel->0@ == channel@
                &&& m.payload == payload
            },
    {
        if self.agent_registry.len() == 0 {
            return Err(PubSubError::NoAgentsRegistered);
        }
        let number = dec_signed(millis);
        Ok(
            Message {
                timestamp: now,
                source: cat2("initial_", number.as_str()),
                channel: Some(owned(channel)),
                payload,
            },
        )
    }

    fn collect_listeners(&self, suffix: &str) -> (r: Vec<Listener>)
        ensures
            listener_views(r@) == all_listeners(
                self.agent_registry.pairs(),
                suffix@,
                self.channels@,
                self.agent_registry.pairs().len() as int,
            ),
    {
        let mut r: Vec<Listener> = Vec::new();
        let n: usize = self.agent_registry.len();
        let ghost pairs = self.agent_registry.pairs();
        let mut i: usize = 0;
        proof {
            assert(listener_views(r@) =~= all_listeners(pairs, suffix@, self.channels@, 0));
        }
        while i < n
            invariant
                i <= n,
                n == pairs.len(),
                pairs == self.agent_registry.pairs(),
                listener_views(r@) == all_listeners(pairs, suffix@, self.channels@, i as int),
            decreases n - i,
        {
            let name = self.agent_registry.key_at(i).as_str();
            let node = cat2(name, suffix);
            let subscriptions = &self.agent_registry.value_at(i).metadata.subscriptions;
            let ghost before = listener_views(r@);
            let ghost subs = views(subscriptions@);
            let mut j: usize = 0;
            proof {
                assert(subs.take(0) =~= Seq::<Seq<char>>::empty());
                assert(before + agent_listeners(name@, node@, subs.take(0), self.channels@) =~= before);
            }
            while j < subscriptions.len()
                invariant
                    j <= subscriptions@.len(),
                    subs == views(subscriptions@),
                    listener_views(r@) == before + agent_listeners(name@, node@, subs.take(j as int), self.channels@),
                decreases subscriptions.len() - j,
            {
                proof {
                    assert(subs.take(j + 1).drop_last() =~= subs.take(j as int));
                    assert(subs.take(j + 1).last() == subscriptions@[j as int]@);
                }
                let ghost was = listener_views(r@);
                if self.channels.contains(subscriptions[j].as_str()) {
                    let l = Listener { agent: owned(name), node_id: node.clone(), channel: subscriptions[j].clone() };
                    let ghost lv = l@;
                    r.push(l);
                    proof {
                        assert(listener_views(r@) =~= was.push(lv));
                        assert(lv =~= (ListenerView { agent: name@, node_id: node@, channel: subscriptions@[j as int]@ }));
                        assert(was.push(lv) =~= before + agent_listeners(
                            name@,
                            node@,
                            subs.take(j as int),
                            self.channels@,
                        ).push(lv));
                    }
                }
                j = j + 1;
            }
            proof {
                assert(subs.take(j as int) =~= subs);
            }
            i = i + 1;
        }
        r
    }

    /// Who listens where during a run: each agent on every channel that it subscribes to and
    /// that exists, under its name and `_instance`.
    pub fn listeners(&self) -> (r: Vec<Listener>)
        ensures
            listener_views(r@) == all_listeners(
                self.agent_registry.pairs(),
                "_instance"@,
                self.channels@,
                self.agent_registry.pairs().len() as int,
            ),
    {
        self.collect_listeners("_instance")
    }

    /// Every channel that an agent subscribes to exists.
    pub open spec fn channels_complete(&self) -> bool {
        forall|i: int, c: Seq<char>|
            0 <= i < self.agent_registry.pairs().len() && #[trigger] subscribes(self.agent_registry.pairs()[i].1, c)
                ==> self.channels@.contains(c)
    }

    /// Who listens where once all agents were started: each on every channel that it
    /// subscribes to, under its name.
    pub fn start(&self) -> (r: Vec<Listener>)
        requires
            self.channels_complete(),
        ensures
            listener_views(r@) == all_listeners(
                self.agent_registry.pairs(),
                Seq::empty(),
                self.channels@,
                self.agent_registry.pairs().len() as int,
            ),
            r@.len() == subscription_count(self.agent_registry.pairs(), self.agent_registry.pairs().len() as int),
    {
        proof {
            reveal_strlit("");
            assert(""@ =~= Seq::<char>::empty());
            let pairs = self.agent_registry.pairs();
            assert forall|i: int, c: Seq<char>|
                0 <= i < pairs.len() && #[trigger] subscribes(pairs[i].1, c) implies self.channels@.contains(c) by {}
            lemma_none_skipped(pairs, Seq::empty(), self.channels@, pairs.len() as int);
        }
        self.collect_listeners("")
    }

    /// Stops the system.
    pub fn stop(&mut self)
        ensures
            *final(self) == (PubSubExecutor { stopped: true, ..*old(self) }),
    {
        self.stopped = true;
    }

    /// Drops a channel. One with subscribers is only dropped by force.
    pub fn shutdown_channel(&mut self, channel: &str, force: bool, subscribers: usize) -> (r: Result<(), PubSubError>)
        ensures
            r is Ok <==> old(self).channels@.contains(channel@) && (force || subscribers == 0),
            r is Ok ==> final(self).channels@ == old(self).channels@.remove(channel@) && *final(self) == (PubSubExecutor {
                channels: final(self).channels,
                ..*old(self)
            }),
            r matches Err(e) ==> *final(self) == *old(self) && if old(self).channels@.contains(channel@) {
                e matches PubSubError::ExecutionError(s) && s@ == "Channel '"@ + channel@ + "' has "@ + decimal(
                    subscribers as nat,
                ) + " active subscribers. Use force=true to shutdown anyway."@
            } else {
                e matches PubSubError::ChannelNotFound(s) && s@ == channel@
            },
    {
        if !self.channels.contains(channel) {
            return Err(PubSubError::ChannelNotFound(owned(channel)));
        }
        if subscribers > 0 && !force {
            let count = dec(subscribers as u64);
            return Err(
                PubSubError::ExecutionError(
                    cat5(
                        "Channel '",
                        channel,
                        "' has ",
                        count.as_str(),
                        " active subscribers. Use force=true to shutdown anyway.",
                    ),
                ),
            );
        }
        self.channels.remove(channel);
        Ok(())
    }

    /// What is kept of all agents.
    pub fn list_agents(&self) -> (r: Vec<AgentMetadata>)
        ensures
            r@.len() == self.agent_registry.pairs().len(),
            forall|i: int| 0 <= i < r@.len() ==> (#[trigger] r@[i])@ == self.agent_registry.pairs()[i].1.metadata@,
    {
        let n: usize = self.agent_registry.len();
        let mut r: Vec<AgentMetadata> = Vec::new();
        let mut i: usize = 0;
        while i < n
            invariant
                i <= n,
                n == self.agent_registry.pairs().len(),
                r@.len() == i,
                forall|j: int| 0 <= j < i ==> (#[trigger] r@[j])@ == self.agent_registry.pairs()[j].1.metadata@,
            decreases n - i,
        {
            r.push(self.agent_registry.value_at(i).metadata.clone());
            i = i + 1;
        }
        r
    }

    /// What is kept of the agents whose schema takes `input`.
    pub fn find_agents_for_input(&self, input: &str) -> (r: Vec<AgentMetadata>)
        ensures
            metadata_views(r@) == takers(self.agent_registry.pairs(), input@, self.agent_registry.pairs().len() as int),
    {
        let n: usize = self.agent_registry.len();
        let ghost pairs = self.agent_registry.pairs();
        let mut r: Vec<AgentMetadata> = Vec::new();
        let mut i: usize = 0;
        proof {
            assert(metadata_views(r@) =~= takers(pairs, input@, 0));
        }
        while i < n
            invariant
                i <= n,
                n == pairs.len(),
                pairs == self.agent_registry.pairs(),
                metadata_views(r@) == takers(pairs, input@, i as int),
            decreases n - i,
        {
            let metadata = &self.agent_registry.value_at(i).metadata;
            let ghost before = metadata_views(r@);
            match check(metadata.input_schema.as_str(), input) {
                Verdict::Valid => {
                    r.push(metadata.clone());
                    proof {
                        assert(metadata_views(r@) =~= before.push(metadata@));
                    }
                },
                _ => {},
            }
            i = i + 1;
        }
        r
    }

    /// Sets the agent in whose name messages are published.
    pub fn set_current_agent_id(&mut self, id: String)
        ensures
            *final(self) == (PubSubExecutor { current_agent_id: Some(id), ..*old(self) }),
    {
        self.current_agent_id = Some(id);
    }

    /// The agent in whose name messages are published.
    pub fn get_current_agent_id(&self) -> (r: Option<String>)
        ensures
            r == self.current_agent_id,
    {
        match &self.current_agent_id {
            Some(id) => Some(id.clone()),
            None => None,
        }
    }

    /// From now on messages are published in nobody's name.
    pub fn clear_current_agent_id(&mut self)
        ensures
            *final(self) == (PubSubExecutor { current_agent_id: None, ..*old(self) }),
    {
        self.current_agent_id = None;
    }

    /// Puts agents that were made anew back under the names and with the records that were
    /// loaded; an agent without a record is left out.
    pub fn restore_agents(&mut self, agents: Vec<(String, A)>, loaded: &Vec<(String, AgentMetadata)>)
        ensures
            *final(self) == (PubSubExecutor { agent_registry: final(self).agent_registry, ..*old(self) }),
            entry_views(final(self).agent_registry@) == restored(entry_views(old(self).agent_registry@), agents@, loaded@),
    {
        let ghost all = agents@;
        let ghost before = entry_views(self.agent_registry@);
        let mut rest: Vec<(String, A)> = agents;
        let ghost mut i: int = 0;
        proof {
            assert(all.take(0) =~= Seq::<(String, A)>::empty());
            assert(all.skip(0) =~= all);
        }
        while rest.len() > 0
            invariant
                0 <= i <= all.len(),
                rest@ == all.skip(i),
                *self == (PubSubExecutor { agent_registry: self.agent_registry, ..*old(self) }),
                entry_views(self.agent_registry@) == restored(before, all.take(i), loaded@),
            decreases rest.len(),
        {
            proof {
                assert(all.take(i + 1).drop_last() =~= all.take(i));
                assert(all.take(i + 1).last() == rest@[0]);
                assert(all.skip(i + 1) =~= rest@.remove(0));
            }
            let (name, agent) = rest.remove(0);
            match find_record(loaded, name.as_str()) {
                Some(k) => {
                    let metadata = loaded[k].1.clone();
                    let ghost was = self.agent_registry@;
                    let entry = AgentEntry { agent, metadata };
                    self.agent_registry.insert(name.clone(), entry);
                    proof {
                        assert(entry_views(self.agent_registry@) =~= entry_views(was).insert(
                            name@,
                            (agent, loaded@[k as int].1@),
                        ));
                    }
                },
                None => {},
            }
            proof {
                i = i + 1;
            }
        }
        proof {
            assert(all.take(i) =~= all);
        }
    }
}

/// The agents and what is kept of them.
pub open spec fn entry_views<A>(m: Map<Seq<char>, AgentEntry<A>>) -> Map<Seq<char>, (A, MetadataView)> {
    m.map_values(|e: AgentEntry<A>| (e.agent, e.metadata@))
}

/// The record at `k` is the first of the agent called `name`.
pub open spec fn record_at(loaded: Seq<(String, AgentMetadata)>, name: Seq<char>, k: int) -> bool {
    &&& 0 <= k < loaded.len()
    &&& loaded[k].0@ == name
    &&& forall|j: int| 0 <= j < k ==> (#[trigger] loaded[j]).0@ != name
}

/// The agents after those of `agents` that have a record were put back.
pub open spec fn restored<A>(
    m: Map<Seq<char>, (A, MetadataView)>,
    agents: Seq<(String, A)>,
    loaded: Seq<(String, AgentMetadata)>,
) -> Map<Seq<char>, (A, MetadataView)>
    decreases agents.len(),
{
    if agents.len() == 0 {
        m
    } else {
        let before = restored(m, agents.drop_last(), loaded);
        let name = agents.last().0@;
        if exists|k: int| record_at(loaded, name, k) {
            before.insert(name, (agents.last().1, loaded[choose|k: int| record_at(loaded, name, k)].1@))
        } else {
            before
        }
    }
}

fn find_record(loaded: &Vec<(String, AgentMetadata)>, name: &str) -> (r: Option<usize>)
    ensures
        r is Some <==> exists|k: int| record_at(loaded@, name@, k),
        r matches Some(k) ==> k < loaded@.len() && (choose|k: int| record_at(loaded@, name@, k)) == k,
{
    let mut i: usize = 0;
    while i < loaded.len()
        invariant
            i <= loaded@.len(),
            forall|j: int| 0 <= j < i ==> (#[trigger] loaded@[j]).0@ != name@,
        decreases loaded.len() - i,
    {
        if same(loaded[i].0.as_str(), name) {
            proof {
                assert(record_at(loaded@, name@, i as int));
                let k = choose|k: int| record_at(loaded@, name@, k);
                if k < i {
                    assert(loaded@[k].0@ != name@);
                } else if k > i {
                    assert(loaded@[i as int].0@ == name@);
                }
            }
            return Some(i);
        }
        i = i + 1;
    }
    proof {
        if exists|k: int| record_at(loaded@, name@, k) {
            let k = choose|k: int| record_at(loaded@, name@, k);
            assert(loaded@[k].0@ == name@);
        }
    }
    None
}

/// What a list of records says.
pub open spec fn metadata_views(v: Seq<AgentMetadata>) -> Seq<MetadataView> {
    Seq::new(v.len(), |i: int| v[i]@)
}

/// What is kept of those of the first `n` agents whose schema takes `input`.
pub open spec fn takers<A>(agents: Seq<(String, AgentEntry<A>)>, input: Seq<char>, n: int) -> Seq<MetadataView>
    decreases n,
{
    if n <= 0 {
        Seq::empty()
    } else {
        let before = takers(agents, input, n - 1);
        let m = agents[n - 1].1.metadata;
        if satisfies(m.input_schema@, input) == Some(true) {
            before.push(m@)
        } else {
            before
        }
    }
}

/// How many channels the first `n` agents subscribe to.
pub open spec fn subscription_count<A>(agents: Seq<(String, AgentEntry<A>)>, n: int) -> nat
    decreases n,
{
    if n <= 0 {
        0
    } else {
        subscription_count(agents, n - 1) + agents[n - 1].1.metadata.subscriptions@.len()
    }
}

proof fn lemma_agent_listeners_full(name: Seq<char>, node: Seq<char>, subs: Seq<Seq<char>>, channels: Set<Seq<char>>)
    requires
        forall|j: int| 0 <= j < subs.len() ==> channels.contains(#[trigger] subs[j]),
    ensures
        agent_listeners(name, node, subs, channels).len() == subs.len(),
    decreases subs.len(),
{
    if subs.len() > 0 {
        let rest = subs.drop_last();
        assert forall|j: int| 0 <= j < rest.len() implies channels.contains(#[trigger] rest[j]) by {
            assert(channels.contains(subs[j]));
        }
        lemma_agent_listeners_full(name, node, rest, channels);
        assert(channels.contains(subs[subs.len() - 1]));
    }
}

proof fn lemma_none_skipped<A>(agents: Seq<(String, AgentEntry<A>)>, suffix: Seq<char>, channels: Set<Seq<char>>, n: int)
    requires
        0 <= n <= agents.len(),
        forall|i: int, c: Seq<char>|
            0 <= i < agents.len() && #[trigger] subscribes(agents[i].1, c) ==> channels.contains(c),
    ensures
        all_listeners(agents, suffix, channels, n).len() == subscription_count(agents, n),
    decreases n,
{
    if n > 0 {
        lemma_none_skipped(agents, suffix, channels, n - 1);
        let subs = agents[n - 1].1.metadata.subscriptions@;
        assert forall|j: int| 0 <= j < views(subs).len() implies channels.contains(#[trigger] views(subs)[j]) by {
            assert(subs[j]@ == views(subs)[j]);
            assert(subscribes(agents[n - 1].1, views(subs)[j]));
        }
        lemma_agent_listeners_full(agents[n - 1].0@, agents[n - 1].0@ + suffix, views(subs), channels);
    }
}

proof fn lemma_holds_take(v: Seq<String>, i: int, c: Seq<char>)
    requires
        0 <= i < v.len(),
    ensures
        holds_text(v.take(i + 1), c) <==> holds_text(v.take(i), c) || c == v[i]@,
{
    let a = v.take(i);
    let b = v.take(i + 1);
    if holds_text(b, c) {
        let k = choose|k: int| 0 <= k < b.len() && (#[trigger] b[k])@ == c;
        if k < i {
            assert(a[k]@ == c);
        }
    }
    if holds_text(a, c) {
        let k = choose|k: int| 0 <= k < a.len() && (#[trigger] a[k])@ == c;
        assert(b[k]@ == c);
    }
    if c == v[i]@ {
        assert(b[i]@ == c);
    }
}

proof fn lemma_holds_push(v: Seq<String>, s: String, c: Seq<char>)
    ensures
        holds_text(v.push(s), c) <==> holds_text(v, c) || c == s@,
{
    let b = v.push(s);
    assert(b.take(v.len() as int) =~= v);
    assert(b.take(v.len() as int + 1) =~= b);
    lemma_holds_take(b, v.len() as int, c);
}

/// A message is published exactly where the system was not stopped, its time is not up, and each
/// agent that subscribes to the channel takes the payload; it then names the channel and the
/// agent that publishes.
pub proof fn publication_is_checked<A>(x: &PubSubExecutor<A>, channel: &str, message: Message, elapsed: i64, r: Result<Message, PubSubError>)
    requires
        call_ensures(PubSubExecutor::<A>::publish, (x, channel, message, elapsed), r),
        x.config.timeout_seconds matches Some(t) ==> t <= i64::MAX,
    ensures
        x.stopped ==> (r matches Err(PubSubError::ExecutionError(s)) && s@ == "Executor is stopped"@),
        !x.stopped && (x.config.timeout_seconds matches Some(t) && elapsed > t) ==> (r matches Err(e) && e is TimeoutExceeded),
        !x.stopped && (x.config.timeout_seconds is None || elapsed <= x.config.timeout_seconds->0) ==> (r is Ok <==> forall|i: int|
            #![trigger x.agent_registry.pairs()[i]]
            0 <= i < x.agent_registry.pairs().len() && holds_text(
                x.agent_registry.pairs()[i].1.metadata.subscriptions@,
                channel@,
            ) ==> satisfies(x.agent_registry.pairs()[i].1.metadata.input_schema@, message.payload@) == Some(true)),
        r matches Ok(m) ==> m.channel is Some && m.channel->0@ == channel@ && m.payload == message.payload && m.timestamp
            == message.timestamp,
        r matches Ok(m) ==> (x.current_agent_id matches Some(id) ==> m.source@ == id@),
        r matches Ok(m) ==> (x.current_agent_id is None ==> m.source@ == "default_agent"@),
{
    let agents = x.agent_registry.pairs();
    if accepted(agents, channel@, message.payload@) {
        assert forall|i: int|
            #![trigger agents[i]]
            0 <= i < agents.len() && holds_text(agents[i].1.metadata.subscriptions@, channel@) implies satisfies(
            agents[i].1.metadata.input_schema@,
            message.payload@,
        ) == Some(true) by {
            assert(subscribes(agents[i].1, channel@));
        }
    }
}

proof fn lemma_agent_listens(name: Seq<char>, node: Seq<char>, subs: Seq<Seq<char>>, channels: Set<Seq<char>>, channel: Seq<char>)
    ensures
        agent_listeners(name, node, subs, channels).contains(ListenerView { agent: name, node_id: node, channel }) <==> subs.contains(
            channel,
        ) && channels.contains(channel),
        forall|k: int|
            0 <= k < agent_listeners(name, node, subs, channels).len() ==> (#[trigger] agent_listeners(name, node, subs, channels)[k]).agent
                == name && agent_listeners(name, node, subs, channels)[k].node_id == node,
    decreases subs.len(),
{
    if subs.len() > 0 {
        let front = subs.drop_last();
        lemma_agent_listens(name, node, front, channels, channel);
        let before = agent_listeners(name, node, front, channels);
        let all = agent_listeners(name, node, subs, channels);
        let l = ListenerView { agent: name, node_id: node, channel };
        if before.contains(l) {
            let k = choose|k: int| 0 <= k < before.len() && before[k] == l;
            assert(all[k] == l);
        }
        if front.contains(channel) {
            let k = choose|k: int| 0 <= k < front.len() && front[k] == channel;
            assert(subs[k] == channel);
        }
        if subs.contains(channel) && !front.contains(channel) {
            let k = choose|k: int| 0 <= k < subs.len() && subs[k] == channel;
            if k < front.len() {
                assert(front[k] == channel);
            }
        }
        if channels.contains(subs.last()) {
            assert(all[before.len() as int].channel == subs.last());
            if subs.last() == channel {
                assert(all[before.len() as int] == l);
                assert(subs[subs.len() - 1] == channel);
            }
            if all.contains(l) && !before.contains(l) {
                let k = choose|k: int| 0 <= k < all.len() && all[k] == l;
                if k < before.len() {
                    assert(before[k] == l);
                }
                assert(subs[subs.len() - 1] == channel);
            }
        }
    }
}

proof fn lemma_system_listens<A>(
    agents: Seq<(String, AgentEntry<A>)>,
    suffix: Seq<char>,
    channels: Set<Seq<char>>,
    n: int,
    name: Seq<char>,
    channel: Seq<char>,
)
    requires
        0 <= n <= agents.len(),
    ensures
        all_listeners(agents, suffix, channels, n).contains(ListenerView { agent: name, node_id: name + suffix, channel })
            <==> channels.contains(channel) && exists|i: int|
            0 <= i < n && (#[trigger] agents[i]).0@ == name && views(agents[i].1.metadata.subscriptions@).contains(channel),
    decreases n,
{
    if n > 0 {
        lemma_system_listens(agents, suffix, channels, n - 1, name, channel);
        let l = ListenerView { agent: name, node_id: name + suffix, channel };
        let other = agents[n - 1].0@;
        let subs = views(agents[n - 1].1.metadata.subscriptions@);
        let before = all_listeners(agents, suffix, channels, n - 1);
        let own = agent_listeners(other, other + suffix, subs, channels);
        let all = all_listeners(agents, suffix, channels, n);
        lemma_agent_listens(other, other + suffix, subs, channels, channel);
        assert(own.contains(l) ==> other == name) by {
            if own.contains(l) {
                let k = choose|k: int| 0 <= k < own.len() && own[k] == l;
                assert(own[k].agent == other);
            }
        }
        assert(all.contains(l) <==> before.contains(l) || own.contains(l)) by {
            if before.contains(l) {
                let k = choose|k: int| 0 <= k < before.len() && before[k] == l;
                assert(all[k] == l);
            }
            if own.contains(l) {
                let k = choose|k: int| 0 <= k < own.len() && own[k] == l;
                assert(all[before.len() + k] == l);
            }
            if all.contains(l) {
                let k = choose|k: int| 0 <= k < all.len() && all[k] == l;
                if k < before.len() {
                    assert(before[k] == l);
                } else {
                    assert(own[k - before.len()] == l);
                }
            }
        }
    }
}

/// An agent listens, as its name with `_instance`, on exactly those channels that it subscribes
/// to and that exist.
pub proof fn agents_listen_on_their_channels<A>(x: &PubSubExecutor<A>, r: Vec<Listener>, name: Seq<char>, channel: Seq<char>)
    requires
        call_ensures(PubSubExecutor::<A>::listeners, (x,), r),
    ensures
        (exists|k: int|
            0 <= k < r@.len() && (#[trigger] r@[k]).agent@ == name && r@[k].node_id@ == name + "_instance"@ && r@[k].channel@ == channel)
            <==> x.channels@.contains(channel) && exists|i: int|
            0 <= i < x.agent_registry.pairs().len() && (#[trigger] x.agent_registry.pairs()[i]).0@ == name && views(
                x.agent_registry.pairs()[i].1.metadata.subscriptions@,
            ).contains(channel),
{
    let agents = x.agent_registry.pairs();
    lemma_system_listens(agents, "_instance"@, x.channels@, agents.len() as int, name, channel);
    let l = ListenerView { agent: name, node_id: name + "_instance"@, channel };
    let all = listener_views(r@);
    if all.contains(l) {
        let k = choose|k: int| 0 <= k < all.len() && all[k] == l;
        assert(r@[k].agent@ == name);
    }
    if exists|k: int|
        0 <= k < r@.len() && (#[trigger] r@[k]).agent@ == name && r@[k].node_id@ == name + "_instance"@ && r@[k].channel@ == channel {
        let k = choose|k: int|
            0 <= k < r@.len() && (#[trigger] r@[k]).agent@ == name && r@[k].node_id@ == name + "_instance"@ && r@[k].channel@
                == channel;
        assert(all[k] == l);
    }
}

/// A channel is dropped exactly where nobody receives from it and no agent listens or publishes
/// on it.
pub proof fn unused_channels_are_dropped<A>(x: &mut PubSubExecutor<A>, receivers: &StringMap<usize>, r: Vec<String>, c: Seq<char>)
    requires
        call_ensures(PubSubExecutor::<A>::cleanup_channels, (x, receivers), r),
    ensures
        ({
            let agents = old(x).agent_registry.pairs();
            let needed = (receivers@.contains_key(c) && receivers@[c] > 0) || exists|i: int|
                0 <= i < agents.len() && (holds_text((#[trigger] agents[i]).1.metadata.subscriptions@, c) || holds_text(
                    agents[i].1.metadata.publications@,
                    c,
                ));
            &&& final(x).channels@.contains(c) <==> old(x).channels@.contains(c) && needed
            &&& holds_text(r@, c) <==> old(x).channels@.contains(c) && !needed
        }),
        final(x).agent_registry == old(x).agent_registry,
{
    let agents = old(x).agent_registry.pairs();
    assert(used(agents, c) <==> exists|i: int|
        0 <= i < agents.len() && (holds_text((#[trigger] agents[i]).1.metadata.subscriptions@, c) || holds_text(
            agents[i].1.metadata.publications@,
            c,
        ))) by {
        if used(agents, c) {
            let i = choose|i: int| 0 <= i < agents.len() && uses((#[trigger] agents[i]).1, c);
            assert(holds_text(agents[i].1.metadata.subscriptions@, c) || holds_text(agents[i].1.metadata.publications@, c));
        }
        if exists|i: int|
            0 <= i < agents.len() && (holds_text((#[trigger] agents[i]).1.metadata.subscriptions@, c) || holds_text(
                agents[i].1.metadata.publications@,
                c,
            )) {
            let i = choose|i: int|
                0 <= i < agents.len() && (holds_text((#[trigger] agents[i]).1.metadata.subscriptions@, c) || holds_text(
                    agents[i].1.metadata.publications@,
                    c,
                ));
            assert(uses(agents[i].1, c));
        }
    }
    let held = holds_text(r@, c);
    let kept = final(x).channels@.contains(c);
}

proof fn lemma_takers<A>(agents: Seq<(String, AgentEntry<A>)>, input: Seq<char>, n: int)
    requires
        0 <= n <= agents.len(),
    ensures
        takers(agents, input, n) == agents.take(n).filter(
            |a: (String, AgentEntry<A>)| satisfies(a.1.metadata.input_schema@, input) == Some(true),
        ).map_values(|a: (String, AgentEntry<A>)| a.1.metadata@),
    decreases n,
{
    reveal(Seq::filter);
    let keep = |a: (String, AgentEntry<A>)| satisfies(a.1.metadata.input_schema@, input) == Some(true);
    let say = |a: (String, AgentEntry<A>)| a.1.metadata@;
    if n > 0 {
        lemma_takers(agents, input, n - 1);
        assert(agents.take(n).drop_last() =~= agents.take(n - 1));
        assert(agents.take(n).last() == agents[n - 1]);
        let rest = agents.take(n - 1).filter(keep);
        if keep(agents[n - 1]) {
            assert(agents.take(n).filter(keep) == rest.push(agents[n - 1]));
            assert(rest.push(agents[n - 1]).map_values(say) =~= rest.map_values(say).push(say(agents[n - 1])));
        }
    }
    assert(takers(agents, input, n) =~= agents.take(n).filter(keep).map_values(say));
}

/// The agents that are found for an input are those whose schema takes it, in order.
pub proof fn agents_that_take_an_input_are_found<A>(x: &PubSubExecutor<A>, input: &str, r: Vec<AgentMetadata>)
    requires
        call_ensures(PubSubExecutor::<A>::find_agents_for_input, (x, input), r),
    ensures
        metadata_views(r@) == x.agent_registry.pairs().filter(
            |a: (String, AgentEntry<A>)| satisfies(a.1.metadata.input_schema@, input@) == Some(true),
        ).map_values(|a: (String, AgentEntry<A>)| a.1.metadata@),
{
    let agents = x.agent_registry.pairs();
    lemma_takers(agents, input@, agents.len() as int);
    assert(agents.take(agents.len() as int) =~= agents);
}

/// An agent is registered under the first channel that it subscribes to, with what it offers; it
/// can then be found, and without a subscription it is refused.
pub proof fn registered_agent_is_found<A>(
    a: &mut PubSubExecutor<A>,
    agent: A,
    offer: AgentOffer,
    at: &str,
    r: Result<AgentMetadata, PubSubError>,
    b: &PubSubExecutor<A>,
    name: &str,
    found: Option<AgentMetadata>,
)
    requires
        call_ensures(PubSubExecutor::<A>::register_agent, (a, agent, offer, at), r),
        call_ensures(PubSubExecutor::<A>::get_agent_metadata, (b, name), found),
    ensures
        r is Ok <==> offer.subscriptions@.len() > 0,
        r is Err ==> *final(a) == *old(a),
        r matches Ok(m) ==> m.name@ == offer.subscriptions@[0]@ && views(m.subscriptions@) == views(offer.subscriptions@) && views(
            m.publications@,
        ) == views(offer.publications@) && m.input_schema@ == offer.input_schema@ && m.output_schema@ == offer.output_schema@
            && m.registered_at@ == at@,
        *b == *final(a) && r is Ok && name@ == offer.subscriptions@[0]@ ==> found is Some && found->0@ == r->Ok_0@,
        *b == *final(a) && r is Ok && name@ != offer.subscriptions@[0]@ ==> (found is Some <==> old(a).agent_registry@.contains_key(name@)),
{
}

/// A channel that is not listed has to be made, with the capacity of the settings and nobody
/// listening; it is listed from then on.
pub proof fn missing_channel_is_made<A>(
    x: &mut PubSubExecutor<A>,
    channel: &str,
    at: &str,
    stored: Option<ChannelRecord>,
    subscribers: u64,
    r: ChannelStep,
)
    requires
        call_ensures(PubSubExecutor::<A>::ensure_channel, (x, channel, at, stored, subscribers), r),
    ensures
        final(x).channels@.contains(channel@),
        !old(x).channels@.contains(channel@) ==> (r matches ChannelStep::Create(c) && c.channel@ == channel@ && c.created_at@ == at@
            && c.active_subscribers == 0 && (old(x).config.max_messages is None ==> c.capacity == 1000) && (
        old(x).config.max_messages is Some && old(x).config.max_messages->0 <= usize::MAX ==> c.capacity == old(x).config.max_messages->0)),
        old(x).channels@.contains(channel@) && stored is None ==> r is Keep,
        old(x).channels@.contains(channel@) && stored is Some ==> (r matches ChannelStep::Update(c) && c.active_subscribers
            == subscribers && c.channel == stored->0.channel && c.capacity == stored->0.capacity),
{
}

proof fn lemma_restored<A>(
    m: Map<Seq<char>, (A, MetadataView)>,
    agents: Seq<(String, A)>,
    loaded: Seq<(String, AgentMetadata)>,
    i: int,
    k: int,
)
    requires
        0 <= i < agents.len(),
        forall|j: int| i < j < agents.len() ==> (#[trigger] agents[j]).0@ != agents[i].0@,
        record_at(loaded, agents[i].0@, k),
    ensures
        restored(m, agents, loaded).contains_key(agents[i].0@),
        restored(m, agents, loaded)[agents[i].0@] == (agents[i].1, loaded[k].1@),
    decreases agents.len(),
{
    let name = agents[i].0@;
    let front = agents.drop_last();
    let before = restored(m, front, loaded);
    assert(agents.last() == agents[agents.len() - 1]);
    if i == agents.len() - 1 {
        assert(agents.last().0@ == name);
        let c = choose|c: int| record_at(loaded, name, c);
        assert(restored(m, agents, loaded) == before.insert(name, (agents.last().1, loaded[c].1@)));
        assert(record_at(loaded, name, c));
        if c < k {
            assert(loaded[c].0@ != name);
        } else if k < c {
            assert(loaded[k].0@ != name);
        }
    } else {
        assert forall|j: int| i < j < front.len() implies (#[trigger] front[j]).0@ != front[i].0@ by {
            assert(agents[j].0@ != agents[i].0@);
        }
        assert(front[i] == agents[i]);
        lemma_restored(m, front, loaded, i, k);
        assert(agents[agents.len() - 1].0@ != name);
    }
}

/// An agent that was made anew and has a record stands under its name again, with the first
/// record of that name.
pub proof fn agents_with_records_are_restored<A>(
    x: &mut PubSubExecutor<A>,
    agents: Vec<(String, A)>,
    loaded: &Vec<(String, AgentMetadata)>,
    i: int,
    k: int,
)
    requires
        call_ensures(PubSubExecutor::<A>::restore_agents, (x, agents, loaded), ()),
        0 <= i < agents@.len(),
        forall|j: int| i < j < agents@.len() ==> (#[trigger] agents@[j]).0@ != agents@[i].0@,
        0 <= k < loaded@.len(),
        loaded@[k].0@ == agents@[i].0@,
        forall|j: int| 0 <= j < k ==> (#[trigger] loaded@[j]).0@ != agents@[i].0@,
    ensures
        final(x).agent_registry@.contains_key(agents@[i].0@),
        final(x).agent_registry@[agents@[i].0@].agent == agents@[i].1,
        final(x).agent_registry@[agents@[i].0@].metadata@ == loaded@[k].1@,
{
    lemma_restored(entry_views(old(x).agent_registry@), agents@, loaded@, i, k);
    let m = final(x).agent_registry@;
    assert(entry_views(m).contains_key(agents@[i].0@));
    assert(entry_views(m)[agents@[i].0@] == (m[agents@[i].0@].agent, m[agents@[i].0@].metadata@));
}

/// A payload passes exactly where it satisfies its schema; what is wrong is told.
pub proof fn payloads_are_judged(v: Verdict, r: Result<(), PubSubError>)
    requires
        call_ensures(judge_payload, (v,), r),
    ensures
        v is Valid ==> r is Ok,
        v matches Verdict::Invalid(e) ==> (r matches Err(PubSubError::ValidationError(s)) && s@
            == "Message payload validation failed: "@ + e@),
        v matches Verdict::NoSchema(e) ==> (r matches Err(PubSubError::ValidationError(s)) && s@ == e@),
        v matches Verdict::NoDocument(e) ==> (r matches Err(PubSubError::ValidationError(s)) && s@
            == "Message payload is not readable: "@ + e@),
{
}

/// Settings that are given are taken where they are in order.
pub proof fn given_settings_are_taken(c: PubSubConfig, checked: Result<(), String>, r: Result<PubSubConfig, PubSubError>)
    requires
        call_ensures(PubSubConfig::validate, (&c,), checked),
        call_ensures(checked_config, (Some(c),), r),
    ensures
        r is Ok <==> checked is Ok,
        r matches Ok(d) ==> d == c,
        r is Err ==> (r->Err_0 matches PubSubError::ValidationError(s) && s@ == checked->Err_0@),
{
}

/// The first agent that is registered is called by its first subscription, and no agent is
/// before it.
pub proof fn supervisor_comes_first<A>(
    x: &mut PubSubExecutor<A>,
    agent: A,
    offer: AgentOffer,
    at: &str,
    r: Result<AgentMetadata, PubSubError>,
)
    requires
        call_ensures(PubSubExecutor::<A>::register_supervisor_agent, (x, agent, offer, at), r),
    ensures
        r is Ok <==> old(x).agent_registry.pairs().len() == 0 && offer.subscriptions@.len() > 0,
        old(x).agent_registry.pairs().len() > 0 ==> (r matches Err(PubSubError::ExecutionError(s)) && s@
            == "Supervisor agent must be registered first"@),
        old(x).agent_registry.pairs().len() == 0 && offer.subscriptions@.len() == 0 ==> (r matches Err(
            PubSubError::ValidationError(s),
        ) && s@ == "Agent must have at least one subscription"@),
        r is Err ==> *final(x) == *old(x),
        r matches Ok(m) ==> m.name@ == offer.subscriptions@[0]@ && final(x).agent_registry@.contains_key(m.name@)
            && final(x).agent_registry@[m.name@].agent == agent,
{
}

/// The first message of a run says where it comes from, when, over which channel and what.
pub proof fn first_message_is_told<A>(
    x: &PubSubExecutor<A>,
    channel: &str,
    payload: String,
    millis: i64,
    now: Timestamp,
    r: Result<Message, PubSubError>,
)
    requires
        call_ensures(PubSubExecutor::<A>::initial_message, (x, channel, payload, millis, now), r),
    ensures
        x.agent_registry.pairs().len() == 0 ==> (r matches Err(e) && e is NoAgentsRegistered),
        x.agent_registry.pairs().len() > 0 ==> (r matches Ok(m) && m.timestamp == now && m.payload == payload && m.channel is Some
            && m.channel->0@ == channel@ && (millis >= 0 ==> m.source@ == "initial_"@ + decimal(millis as nat))),
{
}

/// A channel is shut down where it is there and nobody listens, or where that does not matter.
pub proof fn used_channel_stays<A>(x: &mut PubSubExecutor<A>, channel: &str, force: bool, subscribers: usize, r: Result<(), PubSubError>, other: Seq<char>)
    requires
        call_ensures(PubSubExecutor::<A>::shutdown_channel, (x, channel, force, subscribers), r),
    ensures
        !old(x).channels@.contains(channel@) ==> (r matches Err(PubSubError::ChannelNotFound(s)) && s@ == channel@),
        old(x).channels@.contains(channel@) && !force && subscribers > 0 ==> (r matches Err(PubSubError::ExecutionError(s)) && s@
            == "Channel '"@ + channel@ + "' has "@ + decimal(subscribers as nat)
            + " active subscribers. Use force=true to shutdown anyway."@),
        old(x).channels@.contains(channel@) && (force || subscribers == 0) ==> r is Ok,
        r is Err ==> *final(x) == *old(x),
        r is Ok ==> !final(x).channels@.contains(channel@),
        other != channel@ ==> (final(x).channels@.contains(other) <==> old(x).channels@.contains(other)),
        final(x).agent_registry == old(x).agent_registry,
{
}

/// A system that starts has a listener for each agent and channel that the agent subscribes to.
pub proof fn started_system_listens<A>(x: &PubSubExecutor<A>, r: Vec<Listener>, name: Seq<char>, channel: Seq<char>)
    requires
        call_ensures(PubSubExecutor::<A>::start, (x,), r),
    ensures
        (exists|k: int|
            0 <= k < r@.len() && (#[trigger] r@[k]).agent@ == name && r@[k].node_id@ == name && r@[k].channel@ == channel)
            <==> x.channels@.contains(channel) && exists|i: int|
            0 <= i < x.agent_registry.pairs().len() && (#[trigger] x.agent_registry.pairs()[i]).0@ == name && views(
                x.agent_registry.pairs()[i].1.metadata.subscriptions@,
            ).contains(channel),
{
    let agents = x.agent_registry.pairs();
    let e = Seq::<char>::empty();
    lemma_system_listens(agents, e, x.channels@, agents.len() as int, name, channel);
    assert(name + e =~= name);
    let l = ListenerView { agent: name, node_id: name + e, channel };
    let all = listener_views(r@);
    if all.contains(l) {
        let k = choose|k: int| 0 <= k < all.len() && all[k] == l;
        assert(r@[k].agent@ == name);
    }
    if exists|k: int|
        0 <= k < r@.len() && (#[trigger] r@[k]).agent@ == name && r@[k].node_id@ == name && r@[k].channel@ == channel {
        let k = choose|k: int|
            0 <= k < r@.len() && (#[trigger] r@[k]).agent@ == name && r@[k].node_id@ == name && r@[k].channel@ == channel;
        assert(all[k] == l);
    }
}

} // verus!
