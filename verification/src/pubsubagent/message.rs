//! Messages, agents and the settings of a system of agents.

use crate::dag_flow::config::{default_strategy, HumanTimeoutAction, RetryStrategy};
use crate::dag_flow::node::{NodeExecutionOutcome, OutcomeView};
use crate::dag_flow::tree::Timestamp;
use crate::text::{cat2, clone_list, clone_opt, owned, views};
use vstd::prelude::*;

verus! {

/// A message. The payload is a JSON text.
#[derive(Debug)]
pub struct Message {
    pub timestamp: Timestamp,
    /// The agent that published it.
    pub source: String,
    /// The channel it was published on.
    pub channel: Option<String>,
    pub payload: String,
}

impl Clone for Message {
    fn clone(&self) -> (r: Self)
        ensures
            r == *self,
    {
        Message {
            timestamp: self.timestamp,
            source: self.source.clone(),
            channel: clone_opt(&self.channel),
            payload: self.payload.clone(),
        }
    }
}

impl Message {
    /// A message that was not published yet.
    pub fn new(source: String, payload: String, timestamp: Timestamp) -> (r: Self)
        ensures
            r == (Message { timestamp, source, channel: None, payload }),
    {
        Message { timestamp, source, channel: None, payload }
    }
}

/// What is kept of an agent. The schemas are JSON texts.
#[derive(Debug)]
pub struct AgentMetadata {
    pub name: String,
    pub subscriptions: Vec<String>,
    pub publications: Vec<String>,
    pub input_schema: String,
    pub output_schema: String,
    pub registered_at: String,
}

/// What [`AgentMetadata`] says.
#[verifier::ext_equal]
pub struct MetadataView {
    pub name: Seq<char>,
    pub subscriptions: Seq<Seq<char>>,
    pub publications: Seq<Seq<char>>,
    pub input_schema: Seq<char>,
    pub output_schema: Seq<char>,
    pub registered_at: Seq<char>,
}

impl View for AgentMetadata {
    type V = MetadataView;

    open spec fn view(&self) -> MetadataView {
        MetadataView {
            name: self.name@,
            subscriptions: views(self.subscriptions@),
            publications: views(self.publications@),
            input_schema: self.input_schema@,
            output_schema: self.output_schema@,
            registered_at: self.registered_at@,
        }
    }
}

impl Clone for AgentMetadata {
    fn clone(&self) -> (r: Self)
        ensures
            r@ == self@,
    {
        AgentMetadata {
            name: self.name.clone(),
            subscriptions: clone_list(&self.subscriptions),
            publications: clone_list(&self.publications),
            input_schema: self.input_schema.clone(),
            output_schema: self.output_schema.clone(),
            registered_at: self.registered_at.clone(),
        }
    }
}

/// What an agent says of itself when it is registered.
#[derive(Debug)]
pub struct AgentOffer {
    pub subscriptions: Vec<String>,
    pub publications: Vec<String>,
    pub input_schema: String,
    pub output_schema: String,
}

/// Limits and rules of a system of agents.
#[derive(Debug, Clone, Copy)]
pub struct PubSubConfig {
    pub max_messages: Option<u64>,
    pub timeout_seconds: Option<u64>,
    pub human_wait_minutes: Option<u32>,
    pub human_timeout_action: HumanTimeoutAction,
    pub max_tokens: Option<u64>,
    pub retry_strategy: RetryStrategy,
    pub max_attempts: u32,
}

impl Default for PubSubConfig {
    fn default() -> (r: Self)
        ensures
            r.max_messages == Some(1000u64),
            r.timeout_seconds == Some(3600u64),
            r.human_wait_minutes is None,
            r.human_timeout_action == HumanTimeoutAction::Pause,
            r.max_tokens is None,
            r.retry_strategy == default_strategy(),
            r.max_attempts == 3,
            r.problem() is None,
    {
        PubSubConfig {
            max_messages: Some(1000),
            timeout_seconds: Some(3600),
            human_wait_minutes: None,
            human_timeout_action: HumanTimeoutAction::Pause,
            max_tokens: None,
            retry_strategy: RetryStrategy::default(),
            max_attempts: 3,
        }
    }
}

impl PubSubConfig {
    /// What is wrong with the settings.
    pub open spec fn problem(&self) -> Option<Seq<char>> {
        if self.timeout_seconds == Some(0u64) {
            Some("timeout_seconds must be greater than 0"@)
        } else if self.timeout_seconds is Some && self.timeout_seconds->0 > 86400 {
            Some("timeout_seconds cannot exceed 24 hours"@)
        } else if self.max_messages == Some(0u64) {
            Some("max_messages must be greater than 0"@)
        } else {
            None
        }
    }

    /// Checks the settings.
    pub fn validate(&self) -> (r: Result<(), String>)
        ensures
            r is Ok <==> self.problem() is None,
            r matches Err(e) ==> self.problem() == Some(e@),
    {
        if let Some(timeout) = self.timeout_seconds {
            if timeout == 0 {
                return Err(owned("timeout_seconds must be greater than 0"));
            }
            if timeout > 86400 {
                return Err(owned("timeout_seconds cannot exceed 24 hours"));
            }
        }
        if let Some(max_msgs) = self.max_messages {
            if max_msgs == 0 {
                return Err(owned("max_messages must be greater than 0"));
            }
        }
        Ok(())
    }

    /// How many messages a channel holds.
    pub open spec fn channel_capacity(&self) -> usize {
        match self.max_messages {
            Some(n) => n as usize,
            None => 1000,
        }
    }

    /// How many messages a new channel holds.
    pub fn capacity(&self) -> (r: usize)
        ensures
            r == self.channel_capacity(),
    {
        match self.max_messages {
            Some(n) => #[verifier::truncate] (n as usize),
            None => 1000,
        }
    }

    /// How long a human is waited for, in seconds.
    pub fn human_wait_secs(&self) -> (r: u64)
        ensures
            r == 60 * (if self.human_wait_minutes is Some {
                self.human_wait_minutes->0 as int
            } else {
                5
            }),
    {
        let minutes: u32 = match self.human_wait_minutes {
            Some(n) => n,
            None => 5,
        };
        minutes as u64 * 60
    }
}

/// Why an operation of a system of agents failed. Errors of the JSON library and of the
/// database are kept as texts.
#[derive(Debug)]
pub enum PubSubError {
    LockError(String),
    AgentNotFound(String),
    ChannelNotFound(String),
    SerializationError(String),
    DatabaseError(String),
    ValidationError(String),
    ExecutionError(String),
    Cancelled,
    TimeoutExceeded,
    NoAgentsRegistered,
}

impl PubSubError {
    /// The error in words.
    pub open spec fn text(&self) -> Seq<char> {
        match *self {
            PubSubError::LockError(s) => "Lock error: "@ + s@,
            PubSubError::AgentNotFound(s) => "Agent not found: "@ + s@,
            PubSubError::ChannelNotFound(s) => "Channel not found: "@ + s@,
            PubSubError::SerializationError(s) => "Serialization error: "@ + s@,
            PubSubError::DatabaseError(s) => "Database error: "@ + s@,
            PubSubError::ValidationError(s) => "Validation error: "@ + s@,
            PubSubError::ExecutionError(s) => "Execution error: "@ + s@,
            PubSubError::Cancelled => "Cancelled"@,
            PubSubError::TimeoutExceeded => "Timeout exceeded"@,
            PubSubError::NoAgentsRegistered => "No agents registered"@,
        }
    }

    /// The error in words.
    pub fn message(&self) -> (r: String)
        ensures
            r@ == self.text(),
    {
        match self {
            PubSubError::LockError(s) => cat2("Lock error: ", s.as_str()),
            PubSubError::AgentNotFound(s) => cat2("Agent not found: ", s.as_str()),
            PubSubError::ChannelNotFound(s) => cat2("Channel not found: ", s.as_str()),
            PubSubError::SerializationError(s) => cat2("Serialization error: ", s.as_str()),
            PubSubError::DatabaseError(s) => cat2("Database error: ", s.as_str()),
            PubSubError::ValidationError(s) => cat2("Validation error: ", s.as_str()),
            PubSubError::ExecutionError(s) => cat2("Execution error: ", s.as_str()),
            PubSubError::Cancelled => owned("Cancelled"),
            PubSubError::TimeoutExceeded => owned("Timeout exceeded"),
            PubSubError::NoAgentsRegistered => owned("No agents registered"),
        }
    }
}

/// What a run of agents came to.
#[derive(Debug)]
pub struct PubSubExecutionReport {
    /// What became of each message that was handled.
    pub agent_outcomes: Vec<NodeExecutionOutcome>,
    pub overall_success: bool,
    pub error: Option<String>,
}

/// Whether every message was handled.
pub open spec fn all_succeeded(outcomes: Seq<NodeExecutionOutcome>) -> bool {
    forall|i: int| 0 <= i < outcomes.len() ==> (#[trigger] outcomes[i]).success
}

impl PubSubExecutionReport {
    /// A report.
    pub fn new(outcomes: Vec<NodeExecutionOutcome>, success: bool, error: Option<String>) -> (r: Self)
        ensures
            r == (PubSubExecutionReport { agent_outcomes: outcomes, overall_success: success, error }),
    {
        PubSubExecutionReport { agent_outcomes: outcomes, overall_success: success, error }
    }

    /// The report of a run that came to its end: it succeeded where every message was handled.
    pub fn completed(outcomes: Vec<NodeExecutionOutcome>) -> (r: Self)
        ensures
            r.agent_outcomes == outcomes,
            r.overall_success == all_succeeded(outcomes@),
            r.error is None,
    {
        let mut i: usize = 0;
        let mut success: bool = true;
        while i < outcomes.len()
            invariant
                i <= outcomes@.len(),
                success == all_succeeded(outcomes@.take(i as int)),
            decreases outcomes.len() - i,
        {
            proof {
                let a = outcomes@.take(i as int);
                let b = outcomes@.take(i + 1);
                assert(b[i as int] == outcomes@[i as int]);
                if all_succeeded(b) {
                    assert forall|j: int| 0 <= j < a.len() implies (#[trigger] a[j]).success by {
                        assert(b[j].success);
                    }
                }
                if all_succeeded(a) && outcomes@[i as int].success {
                    assert forall|j: int| 0 <= j < b.len() implies (#[trigger] b[j]).success by {
                        if j < i {
                            assert(a[j].success);
                        }
                    }
                }
            }
            success = success && outcomes[i].success;
            i = i + 1;
        }
        proof {
            assert(outcomes@.take(i as int) =~= outcomes@);
        }
        PubSubExecutionReport::new(outcomes, success, None)
    }

    /// The report of a run that was cancelled.
    pub fn cancelled(outcomes: Vec<NodeExecutionOutcome>) -> (r: Self)
        ensures
            r.agent_outcomes == outcomes,
            !r.overall_success,
            r.error is Some && r.error->0@ == "Execution cancelled"@,
    {
        PubSubExecutionReport::new(outcomes, false, Some(owned("Execution cancelled")))
    }
}

/// How a run starts.
#[derive(Debug)]
pub enum PubSubWorkflowSpec {
    /// With a message on a channel.
    EventDriven { channel: String, initial_message: Message },
}

/// What became of a message that the agent called `name` handled.
pub open spec fn handled(name: Seq<char>, error: Option<Seq<char>>) -> OutcomeView {
    OutcomeView {
        node_id: name,
        success: error is None,
        retry_messages: if error is Some {
            seq![error->0]
        } else {
            Seq::empty()
        },
        final_error: error,
    }
}

/// What became of a message that the agent called `name` handled.
pub fn processing_outcome(name: &str, result: Result<(), String>) -> (r: NodeExecutionOutcome)
    ensures
        r@ == handled(
            name@,
            match result {
                Ok(_) => None,
                Err(e) => Some(e@),
            },
        ),
{
    match result {
        Ok(()) => {
            let r = NodeExecutionOutcome {
                node_id: owned(name),
                success: true,
                retry_messages: Vec::new(),
                final_error: None,
            };
            proof {
                assert(r@.retry_messages =~= Seq::<Seq<char>>::empty());
            }
            r
        },
        Err(e) => {
            let mut retry_messages: Vec<String> = Vec::new();
            retry_messages.push(e.clone());
            let r = NodeExecutionOutcome { node_id: owned(name), success: false, retry_messages, final_error: Some(e) };
            proof {
                assert(r@.retry_messages =~= seq![e@]);
            }
            r
        },
    }
}

/// Settings are accepted exactly where the time is more than nothing and at most a day, and some
/// message may be held.
pub proof fn agent_settings_are_checked(c: &PubSubConfig, r: Result<(), String>, capacity: usize, wait: u64)
    requires
        call_ensures(PubSubConfig::validate, (c,), r),
        call_ensures(PubSubConfig::capacity, (c,), capacity),
        call_ensures(PubSubConfig::human_wait_secs, (c,), wait),
    ensures
        r is Ok <==> (c.timeout_seconds matches Some(t) ==> 1 <= t <= 86400) && (c.max_messages matches Some(n) ==> n >= 1),
        c.timeout_seconds == Some(0u64) ==> (r matches Err(e) && e@ == "timeout_seconds must be greater than 0"@),
        c.timeout_seconds is Some && c.timeout_seconds->0 > 86400 ==> (r matches Err(e) && e@
            == "timeout_seconds cannot exceed 24 hours"@),
        c.timeout_seconds is None && c.max_messages == Some(0u64) ==> (r matches Err(e) && e@
            == "max_messages must be greater than 0"@),
        c.max_messages is None ==> capacity == 1000,
        c.max_messages is Some && c.max_messages->0 <= usize::MAX ==> capacity == c.max_messages->0,
        c.human_wait_minutes is None ==> wait == 300,
        c.human_wait_minutes matches Some(m) ==> wait == m * 60,
{
}

/// A run went well exactly where each message was handled well.
pub proof fn run_succeeds_where_all_did(outcomes: Vec<NodeExecutionOutcome>, r: PubSubExecutionReport)
    requires
        call_ensures(PubSubExecutionReport::completed, (outcomes,), r),
    ensures
        r.overall_success <==> forall|i: int| 0 <= i < outcomes@.len() ==> (#[trigger] outcomes@[i]).success,
        r.agent_outcomes == outcomes,
        r.error is None,
{
}

/// What became of a message is told under the agent's name, with the error where there was one.
pub proof fn handling_is_told(name: &str, result: Result<(), String>, r: NodeExecutionOutcome)
    requires
        call_ensures(processing_outcome, (name, result), r),
    ensures
        r.node_id@ == name@,
        r.success <==> result is Ok,
        result is Ok ==> r.final_error is None && r.retry_messages@.len() == 0,
        result matches Err(e) ==> r.final_error is Some && r.final_error->0@ == e@ && r.retry_messages@.len() == 1
            && r.retry_messages@[0]@ == e@,
{
    assert(views(r.retry_messages@).len() == r.retry_messages@.len());
    if result is Err {
        assert(views(r.retry_messages@)[0] == r.retry_messages@[0]@);
    }
}

/// Each error is told in its words.
pub proof fn agent_errors_are_told(e: &PubSubError, r: String)
    requires
        call_ensures(PubSubError::message, (e,), r),
    ensures
        *e matches PubSubError::LockError(s) ==> r@ == "Lock error: "@ + s@,
        *e matches PubSubError::AgentNotFound(s) ==> r@ == "Agent not found: "@ + s@,
        *e matches PubSubError::ChannelNotFound(s) ==> r@ == "Channel not found: "@ + s@,
        *e matches PubSubError::SerializationError(s) ==> r@ == "Serialization error: "@ + s@,
        *e matches PubSubError::DatabaseError(s) ==> r@ == "Database error: "@ + s@,
        *e matches PubSubError::ValidationError(s) ==> r@ == "Validation error: "@ + s@,
        *e matches PubSubError::ExecutionError(s) ==> r@ == "Execution error: "@ + s@,
        *e is Cancelled ==> r@ == "Cancelled"@,
        *e is TimeoutExceeded ==> r@ == "Timeout exceeded"@,
        *e is NoAgentsRegistered ==> r@ == "No agents registered"@,
{
}

/// A run that was cancelled did not succeed, and says so.
pub proof fn cancelled_run_did_not_succeed(outcomes: Vec<NodeExecutionOutcome>, r: PubSubExecutionReport)
    requires
        call_ensures(PubSubExecutionReport::cancelled, (outcomes,), r),
    ensures
        !r.overall_success && r.agent_outcomes == outcomes && r.error is Some && r.error->0@ == "Execution cancelled"@,
{
}

} // verus!
