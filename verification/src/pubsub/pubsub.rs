//! Agents that exchange messages over channels.

use crate::dag_flow::tree::Timestamp;
use crate::errors::DaggerError;
use crate::ids::new_uuid;
use crate::schema::{brief_refusal, check, judged_briefly, satisfies, Verdict};
use crate::string_map::{StringMap, StringSet};
use crate::text::{cat2, cat3, chars_of, clone_list, clone_opt, holds_text, owned, same, text_of, views};
use vstd::prelude::*;

verus! {

/// How many messages a channel holds.
pub const CHANNEL_CAPACITY: usize = 1000;

/// A message. The payload is a JSON text.
#[derive(Debug)]
pub struct Message {
    pub timestamp: Timestamp,
    /// The agent that published it.
    pub source: String,
    /// The channel it was published on.
    pub channel: Option<String>,
    pub task_id: Option<String>,
    pub payload: String,
    pub message_id: String,
}

impl Clone for Message {
    fn clone(&self) -> (r: Self)
        ensures
            r == *self,
    {
        Message {
            timestamp: self.timestamp,
            source: self.source.clone(),
            channel: clone_opt(&self.channel),
            task_id: clone_opt(&self.task_id),
            payload: self.payload.clone(),
            message_id: self.message_id.clone(),
        }
    }
}

impl Message {
    /// A message that was not published yet, under a random id.
    pub fn new(source: String, payload: String, timestamp: Timestamp) -> (r: Self)
        ensures
            r == (Message { timestamp, source, channel: None, task_id: None, payload, message_id: r.message_id }),
            r.message_id@.len() == 36,
    {
        Message { timestamp, source, channel: None, task_id: None, payload, message_id: new_uuid() }
    }

    /// A message about a task that was not published yet, under a random id.
    pub fn with_task_id(source: String, task_id: String, payload: String, timestamp: Timestamp) -> (r: Self)
        ensures
            r == (Message { timestamp, source, channel: None, task_id: Some(task_id), payload, message_id: r.message_id }),
            r.message_id@.len() == 36,
    {
        Message { timestamp, source, channel: None, task_id: Some(task_id), payload, message_id: new_uuid() }
    }
}

/// What an agent says of itself. The schemas are JSON texts.
#[derive(Debug)]
pub struct AgentMetadata {
    pub name: String,
    pub description: String,
    pub subscriptions: Vec<String>,
    pub publications: Vec<String>,
    pub input_schema: String,
    pub output_schema: String,
    pub registered_at: String,
}

/// What [`AgentMetadata`] says.
#[verifier::ext_equal]
pub struct MetadataView {
    pub name: Seq<char>,
    pub description: Seq<char>,
    pub subscriptions: Seq<Seq<char>>,
    pub publications: Seq<Seq<char>>,
    pub input_schema: Seq<char>,
    pub output_schema: Seq<char>,
    pub registered_at: Seq<char>,
}

impl View for AgentMetadata {
    type V = MetadataView;

    open spec fn view(&self) -> MetadataView {
        MetadataView {
            name: self.name@,
            description: self.description@,
            subscriptions: views(self.subscriptions@),
            publications: views(self.publications@),
            input_schema: self.input_schema@,
            output_schema: self.output_schema@,
            registered_at: self.registered_at@,
        }
    }
}

impl Clone for AgentMetadata {
    fn clone(&self) -> (r: Self)
        ensures
            r@ == self@,
    {
        AgentMetadata {
            name: self.name.clone(),
            description: self.description.clone(),
            subscriptions: clone_list(&self.subscriptions),
            publications: clone_list(&self.publications),
            input_schema: self.input_schema.clone(),
            output_schema: self.output_schema.clone(),
            registered_at: self.registered_at.clone(),
        }
    }
}

/// Holds a message for an agent against the agent's input schema.
pub fn validate_input(schema: &str, message: &str) -> (r: Result<(), String>)
    ensures
        r is Ok <==> satisfies(schema@, message@) == Some(true),
        r matches Err(e) ==> exists|v: Verdict|
            v.outcome() == satisfies(schema@, message@) && #[trigger] brief_refusal(v, "input"@) == Some(e@),
{
    judged_briefly(check(schema, message), "input")
}

/// Holds a message of an agent against the agent's output schema.
pub fn validate_output(schema: &str, message: &str) -> (r: Result<(), String>)
    ensures
        r is Ok <==> satisfies(schema@, message@) == Some(true),
        r matches Err(e) ==> exists|v: Verdict|
            v.outcome() == satisfies(schema@, message@) && #[trigger] brief_refusal(v, "output"@) == Some(e@),
{
    judged_briefly(check(schema, message), "output")
}

/// Why an operation failed.
#[derive(Debug)]
pub enum PubSubError {
    ChannelNotFound(String),
    AgentNotFound(String),
    ValidationError(String),
    ExecutionError(String),
}

impl PubSubError {
    /// The error in words.
    pub open spec fn text(&self) -> Seq<char> {
        match *self {
            PubSubError::ChannelNotFound(s) => "Channel not found: "@ + s@,
            PubSubError::AgentNotFound(s) => "Agent not found: "@ + s@,
            PubSubError::ValidationError(s) => "Message validation failed: "@ + s@,
            PubSubError::ExecutionError(s) => "Execution error: "@ + s@,
        }
    }

    /// The error in words.
    pub fn message(&self) -> (r: String)
        ensures
            r@ == self.text(),
    {
        match self {
            PubSubError::ChannelNotFound(s) => cat2("Channel not found: ", s.as_str()),
            PubSubError::AgentNotFound(s) => cat2("Agent not found: ", s.as_str()),
            PubSubError::ValidationError(s) => cat2("Message validation failed: ", s.as_str()),
            PubSubError::ExecutionError(s) => cat2("Execution error: ", s.as_str()),
        }
    }

    /// The error as one of the library: an execution error of `pubsub`.
    pub fn into_error(self) -> (r: DaggerError)
        ensures
            r.is_execution("pubsub"@, self.text()),
    {
        let text = self.message();
        DaggerError::execution("pubsub", text.as_str())
    }
}

/// Limits of a run.
#[derive(Debug, Clone, Copy, PartialEq, Eq)]
pub struct PubSubConfig {
    pub max_messages: Option<u64>,
    pub timeout_seconds: Option<u64>,
    pub max_attempts: u32,
}

/// The usual limits.
pub open spec fn usual_limits() -> PubSubConfig {
    PubSubConfig { max_messages: Some(1000), timeout_seconds: Some(3600), max_attempts: 3 }
}

impl Default for PubSubConfig {
    fn default() -> (r: Self)
        ensures
            r == usual_limits(),
    {
        PubSubConfig { max_messages: Some(1000), timeout_seconds: Some(3600), max_attempts: 3 }
    }
}

/// How a run starts.
#[derive(Debug)]
pub enum PubSubWorkflowSpec {
    /// With a message.
    StartWith { channel: String, message: Message },
    /// With nothing: messages come from outside.
    Reactive,
}

/// An agent with what is kept of it.
pub struct AgentEntry<A> {
    pub agent: A,
    pub metadata: AgentMetadata,
}

/// Where an agent listens.
#[derive(Debug)]
pub struct Listener {
    pub node_id: String,
    pub channel: String,
}

/// What a [`Listener`] says.
#[verifier::ext_equal]
pub struct ListenerView {
    pub node_id: Seq<char>,
    pub channel: Seq<char>,
}

impl View for Listener {
    type V = ListenerView;

    open spec fn view(&self) -> ListenerView {
        ListenerView { node_id: self.node_id@, channel: self.channel@ }
    }
}

/// What a list of listeners says.
pub open spec fn listener_views(v: Seq<Listener>) -> Seq<ListenerView> {
    Seq::new(v.len(), |i: int| v[i]@)
}

/// The listeners of one agent: one for each of its subscriptions.
pub open spec fn own_listeners(node_id: Seq<char>, subscriptions: Seq<Seq<char>>) -> Seq<ListenerView> {
    Seq::new(subscriptions.len(), |i: int| ListenerView { node_id, channel: subscriptions[i] })
}

/// The listeners of the first `n` agents.
pub open spec fn all_listeners<A>(agents: Seq<(String, AgentEntry<A>)>, n: int) -> Seq<ListenerView>
    decreases n,
{
    if n <= 0 {
        Seq::empty()
    } else {
        all_listeners(agents, n - 1) + own_listeners(agents[n - 1].0@, agents[n - 1].1.metadata@.subscriptions)
    }
}

/// Those of the first `n` names of a list that are new to `channels`, in order and once.
pub open spec fn new_names(channels: Set<Seq<char>>, names: Seq<Seq<char>>, n: int) -> Seq<Seq<char>>
    decreases n,
{
    if n <= 0 {
        Seq::empty()
    } else {
        let before = new_names(channels, names, n - 1);
        if channels.contains(names[n - 1]) || before.contains(names[n - 1]) {
            before
        } else {
            before.push(names[n - 1])
        }
    }
}

/// Whether `after` holds the channels of `before` and those of `wanted`.
pub open spec fn lists(before: Set<Seq<char>>, after: Set<Seq<char>>, wanted: Seq<Seq<char>>) -> bool {
    forall|c: Seq<char>| #[trigger] after.contains(c) <==> before.contains(c) || wanted.contains(c)
}

/// Agents of the type `A` and the names of their channels. The channels themselves are kept
/// outside, under those names.
pub struct PubSubExecutor<A> {
    /// By their ids.
    pub agents: StringMap<AgentEntry<A>>,
    pub channels: StringSet,
    pub config: PubSubConfig,
    pub stopped: bool,
}

/// The id of an agent: its name and the first eight characters of an identifier.
pub open spec fn node_id(name: Seq<char>, identifier: Seq<char>) -> Seq<char> {
    name + "_"@ + identifier.take(8)
}

impl<A> PubSubExecutor<A> {
    /// No agents and no channels.
    pub fn new(config: Option<PubSubConfig>) -> (r: Self)
        ensures
            r.agents@ == Map::<Seq<char>, AgentEntry<A>>::empty(),
            r.channels@ == Set::<Seq<char>>::empty(),
            r.config == (if config is Some {
                config->0
            } else {
                usual_limits()
            }),
            !r.stopped,
    {
        PubSubExecutor {
            agents: StringMap::new(),
            channels: StringSet::new(),
            config: match config {
                Some(c) => c,
                None => PubSubConfig::default(),
            },
            stopped: false,
        }
    }

    /// Lists a channel, and says whether it has to be made.
    pub fn ensure_channel_exists(&mut self, channel: &str) -> (r: bool)
        ensures
            r == !old(self).channels@.contains(channel@),
            *final(self) == (PubSubExecutor { channels: final(self).channels, ..*old(self) }),
            final(self).channels@ == old(self).channels@.insert(channel@),
    {
        if self.channels.contains(channel) {
            proof {
                assert(self.channels@ =~= self.channels@.insert(channel@));
            }
            return false;
        }
        self.channels.insert(owned(channel));
        true
    }

    fn ensure_channels(&mut self, names: &Vec<String>) -> (r: Vec<String>)
        ensures
            views(r@) == new_names(old(self).channels@, views(names@), names@.len() as int),
            *final(self) == (PubSubExecutor { channels: final(self).channels, ..*old(self) }),
            lists(old(self).channels@, final(self).channels@, views(names@)),
    {
        let ghost before = self.channels@;
        let ghost all = views(names@);
        let mut r: Vec<String> = Vec::new();
        let mut i: usize = 0;
        proof {
            assert(views(r@) =~= Seq::<Seq<char>>::empty());
            assert(all.take(0) =~= Seq::<Seq<char>>::empty());
        }
        while i < names.len()
            invariant
                i <= names@.len(),
                all == views(names@),
                before == old(self).channels@,
                *self == (PubSubExecutor { channels: self.channels, ..*old(self) }),
                views(r@) == new_names(before, all, i as int),
                forall|c: Seq<char>| #[trigger] self.channels@.contains(c) <==> before.contains(c) || views(r@).contains(c),
                forall|c: Seq<char>| #[trigger]
                    self.channels@.contains(c) <==> before.contains(c) || all.take(i as int).contains(c),
            decreases names.len() - i,
        {
            let ghost was = views(r@);
            let ghost had = self.channels@;
            if self.ensure_channel_exists(names[i].as_str()) {
                r.push(names[i].clone());
                proof {
                    assert(views(r@) =~= was.push(all[i as int]));
                    assert(was.push(all[i as int]).last() == all[i as int]);
                    assert forall|c: Seq<char>| views(r@).contains(c) <==> was.contains(c) || c == all[i as int] by {
                        if was.contains(c) {
                            let k = was.index_of(c);
                            assert(views(r@)[k] == c);
                        }
                        if c == all[i as int] {
                            assert(views(r@)[was.len() as int] == c);
                        }
                    }
                }
            } else {
                assert(had.contains(all[i as int]));
            }
            proof {
                let a = all.take(i as int);
                let b = all.take(i + 1);
                assert(b =~= a.push(all[i as int]));
                assert forall|c: Seq<char>| b.contains(c) <==> a.contains(c) || c == all[i as int] by {
                    if a.contains(c) {
                        assert(b[a.index_of(c)] == c);
                    }
                    if c == all[i as int] {
                        assert(b[i as int] == c);
                    }
                }
                assert forall|c: Seq<char>| #[trigger] self.channels@.contains(c) <==> had.contains(c) || c == all[i as int] by {}
            }
            i = i + 1;
        }
        proof {
            assert(all.take(i as int) =~= all);
        }
        r
    }

    /// Registers an agent under `id`, and says which channels have to be made for it, in the
    /// order of those that it listens on and those that it publishes on. An agent that had the
    /// id is replaced.
    pub fn register_agent_as(&mut self, agent: A, metadata: AgentMetadata, id: String) -> (r: Vec<String>)
        ensures
            ({
                let wanted = metadata@.subscriptions + metadata@.publications;
                &&& views(r@) == new_names(old(self).channels@, wanted, wanted.len() as int)
                &&& lists(old(self).channels@, final(self).channels@, wanted)
            }),
            final(self).agents@ == old(self).agents@.insert(id@, AgentEntry { agent, metadata }),
            *final(self) == (PubSubExecutor {
                agents: final(self).agents,
                channels: final(self).channels,
                ..*old(self)
            }),
    {
        let mut wanted: Vec<String> = clone_list(&metadata.subscriptions);
        let mut i: usize = 0;
        let ghost subs = metadata@.subscriptions;
        let ghost pubs = metadata@.publications;
        proof {
            assert(views(wanted@) =~= subs + pubs.take(0));
        }
        while i < metadata.publications.len()
            invariant
                i <= metadata.publications@.len(),
                subs == metadata@.subscriptions,
                pubs == metadata@.publications,
                views(wanted@) == subs + pubs.take(i as int),
            decreases metadata.publications.len() - i,
        {
            let ghost was = views(wanted@);
            wanted.push(metadata.publications[i].clone());
            proof {
                assert(views(wanted@) =~= was.push(pubs[i as int]));
                assert(views(wanted@) =~= subs + pubs.take(i + 1));
            }
            i = i + 1;
        }
        proof {
            assert(pubs.take(i as int) =~= pubs);
        }
        let r = self.ensure_channels(&wanted);
        self.agents.insert(id, AgentEntry { agent, metadata });
        r
    }

    /// Registers an agent under its name and a random suffix, and says under what id and which
    /// channels have to be made for it.
    pub fn register_agent(&mut self, agent: A, metadata: AgentMetadata) -> (r: (String, Vec<String>))
        ensures
            exists|identifier: Seq<char>|
                identifier.len() == 36 && r.0@ == #[trigger] node_id(metadata.name@, identifier),
            ({
                let wanted = metadata@.subscriptions + metadata@.publications;
                &&& views(r.1@) == new_names(old(self).channels@, wanted, wanted.len() as int)
                &&& lists(old(self).channels@, final(self).channels@, wanted)
            }),
            final(self).agents@ == old(self).agents@.insert(r.0@, AgentEntry { agent, metadata }),
            *final(self) == (PubSubExecutor {
                agents: final(self).agents,
                channels: final(self).channels,
                ..*old(self)
            }),
    {
        let identifier = new_uuid();
        let chars = chars_of(identifier.as_str());
        let short = text_of(&chars, 0, 8);
        let id = cat3(metadata.name.as_str(), "_", short.as_str());
        proof {
            assert(short@ =~= identifier@.take(8));
            assert(id@ == node_id(metadata.name@, identifier@));
        }
        let made = self.register_agent_as(agent, metadata, id.clone());
        (id, made)
    }

    /// The message to publish on a channel.
    pub fn publish(&self, channel: &str, message: Message) -> (r: Result<Message, String>)
        ensures
            r is Ok <==> self.channels@.contains(channel@),
            r matches Ok(m) ==> m == (Message { channel: m.channel, ..message }) && (m.channel matches Some(c) && c@ == channel@),
            r matches Err(e) ==> e@ == "Channel not found: "@ + channel@,
    {
        if !self.channels.contains(channel) {
            return Err(cat2("Channel not found: ", channel));
        }
        let mut m: Message = message;
        m.channel = Some(owned(channel));
        Ok(m)
    }

    /// Who listens where during a run: each agent on every channel that it subscribes to.
    pub fn listeners(&self) -> (r: Vec<Listener>)
        ensures
            listener_views(r@) == all_listeners(self.agents.pairs(), self.agents.pairs().len() as int),
    {
        let mut r: Vec<Listener> = Vec::new();
        let n: usize = self.agents.len();
        let ghost pairs = self.agents.pairs();
        let mut i: usize = 0;
        proof {
            assert(listener_views(r@) =~= all_listeners(pairs, 0));
        }
        while i < n
            invariant
                i <= n,
                n == pairs.len(),
                pairs == self.agents.pairs(),
                listener_views(r@) == all_listeners(pairs, i as int),
            decreases n - i,
        {
            let id = self.agents.key_at(i);
            let subscriptions = &self.agents.value_at(i).metadata.subscriptions;
            let ghost before = listener_views(r@);
            let ghost own = own_listeners(id@, views(subscriptions@));
            let mut j: usize = 0;
            proof {
                assert(before + own.take(0) =~= before);
            }
            while j < subscriptions.len()
                invariant
                    j <= subscriptions@.len(),
                    own == own_listeners(id@, views(subscriptions@)),
                    listener_views(r@) == before + own.take(j as int),
                decreases subscriptions.len() - j,
            {
                let ghost was = listener_views(r@);
                let l = Listener { node_id: id.clone(), channel: subscriptions[j].clone() };
                let ghost lv = l@;
                r.push(l);
                proof {
                    assert(listener_views(r@) =~= was.push(lv));
                    assert(lv =~= own[j as int]);
                    assert(listener_views(r@) =~= before + own.take(j + 1));
                }
                j = j + 1;
            }
            proof {
                assert(own.take(j as int) =~= own);
            }
            i = i + 1;
        }
        r
    }

    /// What is kept of all agents.
    pub fn list_agents(&self) -> (r: Vec<AgentMetadata>)
        ensures
            r@.len() == self.agents.pairs().len(),
            forall|i: int| 0 <= i < r@.len() ==> (#[trigger] r@[i])@ == self.agents.pairs()[i].1.metadata@,
    {
        let n: usize = self.agents.len();
        let mut r: Vec<AgentMetadata> = Vec::new();
        let mut i: usize = 0;
        while i < n
            invariant
                i <= n,
                n == self.agents.pairs().len(),
                r@.len() == i,
                forall|j: int| 0 <= j < i ==> (#[trigger] r@[j])@ == self.agents.pairs()[j].1.metadata@,
            decreases n - i,
        {
            r.push(self.agents.value_at(i).metadata.clone());
            i = i + 1;
        }
        r
    }

    /// The names of all channels.
    pub fn list_channels(&self) -> (r: Vec<String>)
        ensures
            forall|c: Seq<char>| #[trigger] holds_text(r@, c) <==> self.channels@.contains(c),
            r@.len() == self.channels@.len(),
    {
        self.channels.items()
    }

    /// Stops the run.
    pub fn stop(&mut self)
        ensures
            *final(self) == (PubSubExecutor { stopped: true, ..*old(self) }),
    {
        self.stopped = true;
    }
}

/// Whether an agent handles a message: its own messages are left aside.
pub fn concerns(node_id: &str, message: &Message) -> (r: bool)
    ensures
        r == (message.source@ != node_id@),
{
    !same(message.source.as_str(), node_id)
}

/// What is said where a channel did not take a message.
pub fn publish_failure(reason: &str) -> (r: String)
    ensures
        r@ == "Failed to publish message: "@ + reason@,
{
    cat2("Failed to publish message: ", reason)
}

/// Once an agent was registered, messages can be published on every channel that it listens
/// or publishes on.
pub proof fn registered_agent_can_be_reached(
    before: Set<Seq<char>>,
    after: Set<Seq<char>>,
    metadata: MetadataView,
    c: Seq<char>,
)
    requires
        lists(before, after, metadata.subscriptions + metadata.publications),
        metadata.subscriptions.contains(c) || metadata.publications.contains(c),
    ensures
        after.contains(c),
{
    let wanted = metadata.subscriptions + metadata.publications;
    if metadata.subscriptions.contains(c) {
        let k = metadata.subscriptions.index_of(c);
        assert(wanted[k] == c);
    } else {
        let k = metadata.publications.index_of(c);
        assert(wanted[metadata.subscriptions.len() + k] == c);
    }
    assert(wanted.contains(c));
}

proof fn lemma_new_names(channels: Set<Seq<char>>, names: Seq<Seq<char>>, n: int)
    requires
        0 <= n <= names.len(),
    ensures
        new_names(channels, names, n).no_duplicates(),
        forall|c: Seq<char>| #[trigger]
            new_names(channels, names, n).contains(c) <==> !channels.contains(c) && exists|i: int|
                0 <= i < n && #[trigger] names[i] == c,
    decreases n,
{
    if n > 0 {
        lemma_new_names(channels, names, n - 1);
        let before = new_names(channels, names, n - 1);
        let all = new_names(channels, names, n);
        assert forall|c: Seq<char>| #[trigger]
            all.contains(c) <==> !channels.contains(c) && exists|i: int| 0 <= i < n && #[trigger] names[i] == c by {
            if before.contains(c) {
                let k = choose|k: int| 0 <= k < before.len() && before[k] == c;
                assert(all[k] == c);
            }
            if all.len() > before.len() {
                assert(all[before.len() as int] == names[n - 1]);
                if all.contains(c) && !before.contains(c) {
                    let k = choose|k: int| 0 <= k < all.len() && all[k] == c;
                    if k < before.len() {
                        assert(before[k] == c);
                    }
                }
            }
            if exists|i: int| 0 <= i < n && #[trigger] names[i] == c {
                let i = choose|i: int| 0 <= i < n && #[trigger] names[i] == c;
                if i < n - 1 {
                    assert(exists|i: int| 0 <= i < n - 1 && #[trigger] names[i] == c);
                }
            }
        }
    }
}

/// An agent that is registered is kept under its id, the channels on which it listens or
/// publishes are listed, and those that were not are to be made, each once.
pub proof fn registered_agent_has_its_channels<A>(
    x: &mut PubSubExecutor<A>,
    agent: A,
    metadata: AgentMetadata,
    id: String,
    r: Vec<String>,
    c: Seq<char>,
)
    requires
        call_ensures(PubSubExecutor::<A>::register_agent_as, (x, agent, metadata, id), r),
    ensures
        final(x).agents@.contains_key(id@) && final(x).agents@[id@].agent == agent && final(x).agents@[id@].metadata == metadata,
        forall|k: Seq<char>|
            k != id@ ==> (#[trigger] final(x).agents@.contains_key(k) <==> old(x).agents@.contains_key(k)) && final(x).agents@[k]
                == old(x).agents@[k],
        final(x).channels@.contains(c) <==> old(x).channels@.contains(c) || holds_text(metadata.subscriptions@, c) || holds_text(
            metadata.publications@,
            c,
        ),
        holds_text(r@, c) <==> !old(x).channels@.contains(c) && (holds_text(metadata.subscriptions@, c) || holds_text(
            metadata.publications@,
            c,
        )),
        forall|i: int, j: int| 0 <= i < j < r@.len() ==> (#[trigger] r@[i])@ != (#[trigger] r@[j])@,
        final(x).config == old(x).config && final(x).stopped == old(x).stopped,
{
    let subs = views(metadata.subscriptions@);
    let pubs = views(metadata.publications@);
    let wanted = subs + pubs;
    let made = views(r@);
    lemma_new_names(old(x).channels@, wanted, wanted.len() as int);
    lemma_held(metadata.subscriptions@, c);
    lemma_held(metadata.publications@, c);
    lemma_held(r@, c);
    assert(wanted.contains(c) <==> subs.contains(c) || pubs.contains(c)) by {
        if subs.contains(c) {
            let i = choose|i: int| 0 <= i < subs.len() && subs[i] == c;
            assert(wanted[i] == c);
        }
        if pubs.contains(c) {
            let i = choose|i: int| 0 <= i < pubs.len() && pubs[i] == c;
            assert(wanted[subs.len() + i] == c);
        }
        if wanted.contains(c) {
            let i = choose|i: int| 0 <= i < wanted.len() && wanted[i] == c;
            if i < subs.len() {
                assert(subs[i] == c);
            } else {
                assert(pubs[i - subs.len()] == c);
            }
        }
    }
    assert((exists|i: int| 0 <= i < wanted.len() && #[trigger] wanted[i] == c) <==> wanted.contains(c));
    let fresh = new_names(old(x).channels@, wanted, wanted.len() as int);
    assert(metadata@.subscriptions + metadata@.publications == wanted);
    assert(made == fresh);
    assert(fresh.contains(c) <==> !old(x).channels@.contains(c) && wanted.contains(c));
    assert forall|i: int, j: int| 0 <= i < j < r@.len() implies (#[trigger] r@[i])@ != (#[trigger] r@[j])@ by {
        assert(made[i] != made[j]);
    }
}

proof fn lemma_held(v: Seq<String>, c: Seq<char>)
    ensures
        holds_text(v, c) <==> views(v).contains(c),
{
    if holds_text(v, c) {
        let i = choose|i: int| 0 <= i < v.len() && (#[trigger] v[i])@ == c;
        assert(views(v)[i] == c);
    }
    if views(v).contains(c) {
        let i = choose|i: int| 0 <= i < views(v).len() && views(v)[i] == c;
        assert(v[i]@ == c);
    }
}

proof fn lemma_listeners<A>(agents: Seq<(String, AgentEntry<A>)>, n: int, id: Seq<char>, channel: Seq<char>)
    requires
        0 <= n <= agents.len(),
    ensures
        all_listeners(agents, n).contains(ListenerView { node_id: id, channel }) <==> exists|i: int|
            0 <= i < n && (#[trigger] agents[i]).0@ == id && holds_text(agents[i].1.metadata.subscriptions@, channel),
    decreases n,
{
    if n > 0 {
        lemma_listeners(agents, n - 1, id, channel);
        let l = ListenerView { node_id: id, channel };
        let before = all_listeners(agents, n - 1);
        let subs = agents[n - 1].1.metadata@.subscriptions;
        let own = own_listeners(agents[n - 1].0@, subs);
        let all = all_listeners(agents, n);
        lemma_held(agents[n - 1].1.metadata.subscriptions@, channel);
        assert(own.contains(l) <==> agents[n - 1].0@ == id && subs.contains(channel)) by {
            if own.contains(l) {
                let k = choose|k: int| 0 <= k < own.len() && own[k] == l;
                assert(subs[k] == channel);
            }
            if agents[n - 1].0@ == id && subs.contains(channel) {
                let k = choose|k: int| 0 <= k < subs.len() && subs[k] == channel;
                assert(own[k] == l);
            }
        }
        assert(all.contains(l) <==> before.contains(l) || own.contains(l)) by {
            if before.contains(l) {
                let k = choose|k: int| 0 <= k < before.len() && before[k] == l;
                assert(all[k] == l);
            }
            if own.contains(l) {
                let k = choose|k: int| 0 <= k < own.len() && own[k] == l;
                assert(all[before.len() + k] == l);
            }
            if all.contains(l) {
                let k = choose|k: int| 0 <= k < all.len() && all[k] == l;
                if k < before.len() {
                    assert(before[k] == l);
                } else {
                    assert(own[k - before.len()] == l);
                }
            }
        }
    }
}

/// An agent listens on a channel exactly where it subscribes to it.
pub proof fn agents_listen_where_they_subscribe<A>(x: &PubSubExecutor<A>, r: Vec<Listener>, id: Seq<char>, channel: Seq<char>)
    requires
        call_ensures(PubSubExecutor::<A>::listeners, (x,), r),
    ensures
        (exists|k: int| 0 <= k < r@.len() && (#[trigger] r@[k]).node_id@ == id && r@[k].channel@ == channel) <==> exists|i: int|
            0 <= i < x.agents.pairs().len() && (#[trigger] x.agents.pairs()[i]).0@ == id && holds_text(
                x.agents.pairs()[i].1.metadata.subscriptions@,
                channel,
            ),
{
    lemma_listeners(x.agents.pairs(), x.agents.pairs().len() as int, id, channel);
    let l = ListenerView { node_id: id, channel };
    let all = listener_views(r@);
    if all.contains(l) {
        let k = choose|k: int| 0 <= k < all.len() && all[k] == l;
        assert(r@[k].node_id@ == id);
    }
    if exists|k: int| 0 <= k < r@.len() && (#[trigger] r@[k]).node_id@ == id && r@[k].channel@ == channel {
        let k = choose|k: int| 0 <= k < r@.len() && (#[trigger] r@[k]).node_id@ == id && r@[k].channel@ == channel;
        assert(all[k] == l);
    }
}

/// A message is published only on a channel that is listed, and names it; nothing else of it
/// changes.
pub proof fn published_message_names_its_channel<A>(x: &PubSubExecutor<A>, channel: &str, message: Message, r: Result<Message, String>)
    requires
        call_ensures(PubSubExecutor::<A>::publish, (x, channel, message), r),
    ensures
        r is Ok <==> x.channels@.contains(channel@),
        r matches Ok(m) ==> m.channel is Some && m.channel->0@ == channel@ && m.payload == message.payload && m.source
            == message.source && m.message_id == message.message_id && m.timestamp == message.timestamp && m.task_id
            == message.task_id,
{
}

/// An executor starts without agents and channels; its limits are those given, or the usual ones.
pub proof fn system_starts_empty<A>(config: Option<PubSubConfig>, r: PubSubExecutor<A>)
    requires
        call_ensures(PubSubExecutor::<A>::new, (config,), r),
    ensures
        r.agents@ == Map::<Seq<char>, AgentEntry<A>>::empty() && r.channels@ == Set::<Seq<char>>::empty() && !r.stopped,
        config matches Some(c) ==> r.config == c,
        config is None ==> r.config.max_messages == Some(1000u64) && r.config.timeout_seconds == Some(3600u64)
            && r.config.max_attempts == 3,
{
}

/// What went wrong between agents is told by its kind, as an error in execution.
pub proof fn agent_errors_become_errors(e: PubSubError, r: DaggerError)
    requires
        call_ensures(PubSubError::into_error, (e,), r),
    ensures
        r matches DaggerError::Execution { component, message, .. } && component@ == "pubsub"@ && {
            &&& e matches PubSubError::ChannelNotFound(s) ==> message@ == "Channel not found: "@ + s@
            &&& e matches PubSubError::AgentNotFound(s) ==> message@ == "Agent not found: "@ + s@
            &&& e matches PubSubError::ValidationError(s) ==> message@ == "Message validation failed: "@ + s@
            &&& e matches PubSubError::ExecutionError(s) ==> message@ == "Execution error: "@ + s@
        },
{
}

/// That a message could not be published is told with the reason.
pub proof fn failed_publication_is_told(reason: &str, r: String)
    requires
        call_ensures(publish_failure, (reason,), r),
    ensures
        r@ == "Failed to publish message: "@ + reason@,
{
}

} // verus!
