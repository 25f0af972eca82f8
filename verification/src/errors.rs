//! What can go wrong, with context.

use crate::string_map::{has_key, key_index, lemma_entry, StringMap};
use crate::text::{cat2, cat3, cat4, cat5, dec, decimal, owned};
use vstd::prelude::*;

verus! {

/// An error of any type, with what can be asked of it.
#[verifier::external_type_specification]
#[verifier::external_body]
pub struct ExAnyError(anyhow::Error);

/// A failure of input or output, with its kind.
#[verifier::external_type_specification]
#[verifier::external_body]
pub struct ExIoError(std::io::Error);

/// What can go wrong anywhere in the library.
#[derive(Debug)]
#[allow(inconsistent_fields)]
pub enum DaggerError {
    /// A component failed.
    Execution { component: String, message: String, context: StringMap<String>, source: Option<anyhow::Error> },
    /// A resource is used up.
    ResourceExhaustion { resource: String, current: u64, limit: u64, details: Option<String> },
    /// An input breaks a rule.
    Validation { message: String, field: Option<String>, schema: Option<String>, source: Option<anyhow::Error> },
    /// A configuration breaks a rule.
    Configuration { message: String, field: Option<String>, expected: Option<String>, actual: Option<String> },
    /// A database failed.
    Database { operation: String, source: anyhow::Error },
    /// Input or output failed.
    Io { operation: String, source: std::io::Error },
    /// A value could not be written or read.
    Serialization { format: String, source: anyhow::Error },
    /// Tasks got into each other's way.
    Concurrency { operation: String, timeout_ms: Option<u64>, source: Option<anyhow::Error> },
    /// A task failed.
    Task { task_id: String, message: String, status: Option<String>, agent: Option<String> },
    /// An agent failed.
    Agent { agent: String, message: String, operation: Option<String> },
    /// A channel failed.
    Channel { channel: String, message: String, operation: Option<String> },
    /// Something took too long.
    Timeout { operation: String, timeout_ms: u64 },
    /// Something was cancelled.
    Cancelled { operation: String, reason: Option<String> },
    /// Anything else.
    Internal { message: String, source: Option<anyhow::Error> },
}

/// What a context says.
pub open spec fn context_view(m: StringMap<String>) -> Map<Seq<char>, Seq<char>> {
    m@.map_values(|s: String| s@)
}

impl DaggerError {
    /// The context of an execution error; other errors have none.
    pub open spec fn context(&self) -> Map<Seq<char>, Seq<char>> {
        match self {
            DaggerError::Execution { component, message, context, source } => context_view(*context),
            _ => Map::empty(),
        }
    }

    /// Whether this is the validation error with the text `text` and nothing more.
    pub open spec fn is_validation(&self, text: Seq<char>) -> bool {
        self matches DaggerError::Validation { message, field, schema, source } && message@ == text && field is None
            && schema is None && source is None
    }

    /// Whether this is the configuration error with the text `text` and nothing more.
    pub open spec fn is_configuration(&self, text: Seq<char>) -> bool {
        self matches DaggerError::Configuration { message, field, expected, actual } && message@ == text && field is None
            && expected is None && actual is None
    }

    /// Whether this is the execution error of `component` with the text `text` and nothing more.
    pub open spec fn is_execution(&self, component_name: Seq<char>, text: Seq<char>) -> bool {
        self matches DaggerError::Execution { component, message, context, source } && component@ == component_name
            && message@ == text && context_view(*context) == Map::<Seq<char>, Seq<char>>::empty() && source is None
    }

    /// Whether this says that `name` is used up.
    pub open spec fn is_exhausted(&self, name: Seq<char>, now: int, most: int) -> bool {
        self matches DaggerError::ResourceExhaustion { resource, current, limit, details } && resource@ == name && current
            == now && limit == most && details is None
    }

    /// Whether this says that `name` took longer than `millis`.
    pub open spec fn is_timeout(&self, name: Seq<char>, millis: int) -> bool {
        self matches DaggerError::Timeout { operation, timeout_ms } && operation@ == name && timeout_ms == millis
    }

    /// Whether this is the concurrency error `name` and nothing more.
    pub open spec fn is_concurrency(&self, name: Seq<char>) -> bool {
        self matches DaggerError::Concurrency { operation, timeout_ms, source } && operation@ == name && timeout_ms is None
            && source is None
    }

    /// Whether this is the channel error of `name` with the text `text` and nothing more.
    pub open spec fn is_channel(&self, name: Seq<char>, text: Seq<char>) -> bool {
        self matches DaggerError::Channel { channel, message, operation } && channel@ == name && message@ == text
            && operation is None
    }

    /// A component failed.
    pub fn execution(component: &str, message: &str) -> (r: Self)
        ensures
            r.is_execution(component@, message@),
    {
        let context: StringMap<String> = StringMap::new();
        proof {
            assert(context_view(context) =~= Map::<Seq<char>, Seq<char>>::empty());
        }
        DaggerError::Execution { component: owned(component), message: owned(message), context, source: None }
    }

    /// A component failed because of another error, which is kept.
    pub fn execution_with_source(component: &str, message: &str, source: anyhow::Error) -> (r: Self)
        ensures
            r matches DaggerError::Execution { component: c, message: m, context, source: s } && c@ == component@ && m@
                == message@ && context_view(context) == Map::<Seq<char>, Seq<char>>::empty() && s == Some(source),
    {
        let context: StringMap<String> = StringMap::new();
        proof {
            assert(context_view(context) =~= Map::<Seq<char>, Seq<char>>::empty());
        }
        DaggerError::Execution {
            component: owned(component),
            message: owned(message),
            context,
            source: Some(source),
        }
    }

    /// Adds context to an execution error; other errors stay as they are.
    pub fn with_context(self, key: &str, value: &str) -> (r: Self)
        ensures
            match self {
                DaggerError::Execution { component, message, context, source } => {
                    &&& r matches DaggerError::Execution { component: c, message: m, context: x, source: s } && c == component
                        && m == message && s == source
                    &&& r.context() == self.context().insert(key@, value@)
                },
                _ => r == self,
            },
    {
        match self {
            DaggerError::Execution { component, message, context, source } => {
                let mut context: StringMap<String> = context;
                let ghost before = context_view(context);
                context.insert(owned(key), owned(value));
                proof {
                    assert(context_view(context) =~= before.insert(key@, value@));
                }
                DaggerError::Execution { component, message, context, source }
            },
            other => other,
        }
    }

    /// A resource is used up.
    pub fn resource_exhausted(resource: &str, current: u64, limit: u64) -> (r: Self)
        ensures
            r.is_exhausted(resource@, current as int, limit as int),
    {
        DaggerError::ResourceExhaustion { resource: owned(resource), current, limit, details: None }
    }

    /// An input breaks a rule.
    pub fn validation(message: &str) -> (r: Self)
        ensures
            r.is_validation(message@),
    {
        DaggerError::Validation { message: owned(message), field: None, schema: None, source: None }
    }

    /// A field of an input breaks a rule.
    pub fn validation_field(message: &str, field: &str) -> (r: Self)
        ensures
            r matches DaggerError::Validation { message: m, field: f, schema, source } && m@ == message@ && f is Some
                && f->0@ == field@ && schema is None && source is None,
    {
        DaggerError::Validation { message: owned(message), field: Some(owned(field)), schema: None, source: None }
    }

    /// A configuration breaks a rule.
    pub fn configuration(message: &str) -> (r: Self)
        ensures
            r.is_configuration(message@),
    {
        DaggerError::Configuration { message: owned(message), field: None, expected: None, actual: None }
    }

    /// A database failed with an error, which is kept.
    pub fn database(operation: &str, source: anyhow::Error) -> (r: Self)
        ensures
            r matches DaggerError::Database { operation: o, source: s } && o@ == operation@ && s == source,
    {
        DaggerError::Database { operation: owned(operation), source }
    }

    /// Input or output failed with an error, which is kept.
    pub fn io(operation: &str, source: std::io::Error) -> (r: Self)
        ensures
            r matches DaggerError::Io { operation: o, source: s } && o@ == operation@ && s == source,
    {
        DaggerError::Io { operation: owned(operation), source }
    }

    /// A value could not be written or read because of an error, which is kept.
    pub fn serialization(format: &str, source: anyhow::Error) -> (r: Self)
        ensures
            r matches DaggerError::Serialization { format: o, source: s } && o@ == format@ && s == source,
    {
        DaggerError::Serialization { format: owned(format), source }
    }

    /// Tasks got into each other's way.
    pub fn concurrency(operation: &str) -> (r: Self)
        ensures
            r.is_concurrency(operation@),
    {
        DaggerError::Concurrency { operation: owned(operation), timeout_ms: None, source: None }
    }

    /// A task failed.
    pub fn task(task_id: &str, message: &str) -> (r: Self)
        ensures
            r matches DaggerError::Task { task_id: t, message: m, status, agent } && t@ == task_id@ && m@ == message@
                && status is None && agent is None,
    {
        DaggerError::Task { task_id: owned(task_id), message: owned(message), status: None, agent: None }
    }

    /// An agent failed.
    pub fn agent(agent: &str, message: &str) -> (r: Self)
        ensures
            r matches DaggerError::Agent { agent: a, message: m, operation } && a@ == agent@ && m@ == message@ && operation is None,
    {
        DaggerError::Agent { agent: owned(agent), message: owned(message), operation: None }
    }

    /// A channel failed.
    pub fn channel(channel: &str, message: &str) -> (r: Self)
        ensures
            r.is_channel(channel@, message@),
    {
        DaggerError::Channel { channel: owned(channel), message: owned(message), operation: None }
    }

    /// Something took too long.
    pub fn timeout(operation: &str, timeout_ms: u64) -> (r: Self)
        ensures
            r.is_timeout(operation@, timeout_ms as int),
    {
        DaggerError::Timeout { operation: owned(operation), timeout_ms }
    }

    /// Something was cancelled.
    pub fn cancelled(operation: &str) -> (r: Self)
        ensures
            r matches DaggerError::Cancelled { operation: o, reason } && o@ == operation@ && reason is None,
    {
        DaggerError::Cancelled { operation: owned(operation), reason: None }
    }

    /// Anything else went wrong.
    pub fn internal(message: &str) -> (r: Self)
        ensures
            r matches DaggerError::Internal { message: m, source } && m@ == message@ && source is None,
    {
        DaggerError::Internal { message: owned(message), source: None }
    }

    /// The error for a failure of input or output.
    pub fn from_io(source: std::io::Error) -> (r: Self)
        ensures
            r matches DaggerError::Io { operation: o, source: s } && o@ == "io_operation"@ && s == source,
    {
        DaggerError::io("io_operation", source)
    }

    /// The error for JSON that could not be written or read.
    pub fn from_json(source: anyhow::Error) -> (r: Self)
        ensures
            r matches DaggerError::Serialization { format: o, source: s } && o@ == "json"@ && s == source,
    {
        DaggerError::serialization("json", source)
    }

    /// The error for a failure of the embedded database.
    pub fn from_sled(source: anyhow::Error) -> (r: Self)
        ensures
            r matches DaggerError::Database { operation: o, source: s } && o@ == "sled_operation"@ && s == source,
    {
        DaggerError::database("sled_operation", source)
    }

    /// The error for a failure of which only the text is known.
    pub fn from_text(text: &str) -> (r: Self)
        ensures
            r matches DaggerError::Internal { message: m, source } && m@ == text@ && source is None,
    {
        DaggerError::internal(text).with_context("source", "anyhow")
    }

    /// Whether another try may succeed.
    pub open spec fn recoverable(&self) -> bool {
        self is Timeout || self is Concurrency || self is Io || self is ResourceExhaustion || self is Database
    }

    /// Whether another try may succeed.
    pub fn is_recoverable(&self) -> (r: bool)
        ensures
            r == self.recoverable(),
    {
        match self {
            DaggerError::Timeout { .. } => true,
            DaggerError::Concurrency { .. } => true,
            DaggerError::Io { .. } => true,
            DaggerError::ResourceExhaustion { .. } => true,
            DaggerError::Database { .. } => true,
            _ => false,
        }
    }

    /// The kind of the error, in a word.
    pub open spec fn kind(&self) -> Seq<char> {
        match self {
            DaggerError::Execution { .. } => "execution"@,
            DaggerError::ResourceExhaustion { .. } => "resource"@,
            DaggerError::Validation { .. } => "validation"@,
            DaggerError::Configuration { .. } => "configuration"@,
            DaggerError::Database { .. } => "database"@,
            DaggerError::Io { .. } => "io"@,
            DaggerError::Serialization { .. } => "serialization"@,
            DaggerError::Concurrency { .. } => "concurrency"@,
            DaggerError::Task { .. } => "task"@,
            DaggerError::Agent { .. } => "agent"@,
            DaggerError::Channel { .. } => "channel"@,
            DaggerError::Timeout { .. } => "timeout"@,
            DaggerError::Cancelled { .. } => "cancelled"@,
            DaggerError::Internal { .. } => "internal"@,
        }
    }

    /// The kind of the error, in a word.
    pub fn category(&self) -> (r: &'static str)
        ensures
            r@ == self.kind(),
    {
        match self {
            DaggerError::Execution { .. } => "execution",
            DaggerError::ResourceExhaustion { .. } => "resource",
            DaggerError::Validation { .. } => "validation",
            DaggerError::Configuration { .. } => "configuration",
            DaggerError::Database { .. } => "database",
            DaggerError::Io { .. } => "io",
            DaggerError::Serialization { .. } => "serialization",
            DaggerError::Concurrency { .. } => "concurrency",
            DaggerError::Task { .. } => "task",
            DaggerError::Agent { .. } => "agent",
            DaggerError::Channel { .. } => "channel",
            DaggerError::Timeout { .. } => "timeout",
            DaggerError::Cancelled { .. } => "cancelled",
            DaggerError::Internal { .. } => "internal",
        }
    }

    /// The text of the error.
    pub open spec fn text(&self) -> Seq<char> {
        match self {
            DaggerError::Execution { component, message, context, source } => "Execution failed in "@ + component@ + ": "@
                + message@,
            DaggerError::ResourceExhaustion { resource, current, limit, details } => "Resource exhausted: "@ + resource@
                + " (current: "@ + decimal(*current as nat) + (", limit: "@ + decimal(*limit as nat) + ")"@),
            DaggerError::Validation { message, field, schema, source } => "Validation failed: "@ + message@,
            DaggerError::Configuration { message, field, expected, actual } => "Configuration error: "@ + message@,
            DaggerError::Database { operation, source } => "Database operation failed: "@ + operation@,
            DaggerError::Io { operation, source } => "IO operation failed: "@ + operation@,
            DaggerError::Serialization { format, source } => "Serialization failed: "@ + format@,
            DaggerError::Concurrency { operation, timeout_ms, source } => "Concurrency error: "@ + operation@,
            DaggerError::Task { task_id, message, status, agent } => "Task error: "@ + task_id@ + " - "@ + message@,
            DaggerError::Agent { agent, message, operation } => "Agent error: "@ + agent@ + " - "@ + message@,
            DaggerError::Channel { channel, message, operation } => "Channel error: "@ + channel@ + " - "@ + message@,
            DaggerError::Timeout { operation, timeout_ms } => "Operation timed out: "@ + operation@ + " (timeout: "@ + decimal(
                *timeout_ms as nat,
            ) + "ms)"@,
            DaggerError::Cancelled { operation, reason } => "Operation was cancelled: "@ + operation@,
            DaggerError::Internal { message, source } => "Internal error: "@ + message@,
        }
    }

    /// Says what went wrong.
    pub fn message(&self) -> (r: String)
        ensures
            r@ == self.text(),
    {
        match self {
            DaggerError::Execution { component, message, context: _, source: _ } => cat4(
                "Execution failed in ",
                component.as_str(),
                ": ",
                message.as_str(),
            ),
            DaggerError::ResourceExhaustion { resource, current, limit, details: _ } => {
                let mut text = cat4(
                    "Resource exhausted: ",
                    resource.as_str(),
                    " (current: ",
                    dec(*current).as_str(),
                );
                text.append(cat3(", limit: ", dec(*limit).as_str(), ")").as_str());
                text
            },
            DaggerError::Validation { message, .. } => cat2("Validation failed: ", message.as_str()),
            DaggerError::Configuration { message, .. } => cat2("Configuration error: ", message.as_str()),
            DaggerError::Database { operation, .. } => cat2("Database operation failed: ", operation.as_str()),
            DaggerError::Io { operation, .. } => cat2("IO operation failed: ", operation.as_str()),
            DaggerError::Serialization { format, .. } => cat2("Serialization failed: ", format.as_str()),
            DaggerError::Concurrency { operation, .. } => cat2("Concurrency error: ", operation.as_str()),
            DaggerError::Task { task_id, message, .. } => cat4("Task error: ", task_id.as_str(), " - ", message.as_str()),
            DaggerError::Agent { agent, message, .. } => cat4("Agent error: ", agent.as_str(), " - ", message.as_str()),
            DaggerError::Channel { channel, message, .. } => cat4(
                "Channel error: ",
                channel.as_str(),
                " - ",
                message.as_str(),
            ),
            DaggerError::Timeout { operation, timeout_ms } => cat5(
                "Operation timed out: ",
                operation.as_str(),
                " (timeout: ",
                dec(*timeout_ms).as_str(),
                "ms)",
            ),
            DaggerError::Cancelled { operation, .. } => cat2("Operation was cancelled: ", operation.as_str()),
            DaggerError::Internal { message, .. } => cat2("Internal error: ", message.as_str()),
        }
    }
}

/// Context that is collected before there is an error.
pub struct ErrorContext {
    context: StringMap<String>,
}

impl View for ErrorContext {
    type V = Map<Seq<char>, Seq<char>>;

    closed spec fn view(&self) -> Map<Seq<char>, Seq<char>> {
        context_view(self.context)
    }
}

impl ErrorContext {
    /// No context yet.
    pub fn new() -> (r: Self)
        ensures
            r@ == Map::<Seq<char>, Seq<char>>::empty(),
    {
        let r = ErrorContext { context: StringMap::new() };
        proof {
            assert(r@ =~= Map::<Seq<char>, Seq<char>>::empty());
        }
        r
    }

    /// Adds a piece of context.
    pub fn add(self, key: &str, value: &str) -> (r: Self)
        ensures
            r@ == self@.insert(key@, value@),
    {
        let mut context: StringMap<String> = self.context;
        let ghost before = context_view(context);
        context.insert(owned(key), owned(value));
        proof {
            assert(context_view(context) =~= before.insert(key@, value@));
        }
        ErrorContext { context }
    }

    /// Adds the context to an execution error; other errors stay as they are.
    pub fn apply_to_error(self, error: DaggerError) -> (r: DaggerError)
        ensures
            match error {
                DaggerError::Execution { component, message, context, source } => {
                    &&& r matches DaggerError::Execution { component: c, message: m, context: x, source: s } && c == component
                        && m == message && s == source
                    &&& r.context() == error.context().union_prefer_right(self@)
                },
                _ => r == error,
            },
    {
        match error {
            DaggerError::Execution { component, message, context, source } => {
                let mut context: StringMap<String> = context;
                let ghost before = context_view(context);
                let ghost mine = self.context.pairs();
                let n: usize = self.context.len();
                let mut i: usize = 0;
                proof {
                    use_type_invariant(&self.context);
                    assert(before =~= before.union_prefer_right(front(mine, 0)));
                }
                while i < n
                    invariant
                        i <= n,
                        n == mine.len(),
                        mine == self.context.pairs(),
                        context_view(context) == before.union_prefer_right(front(mine, i as int)),
                    decreases n - i,
                {
                    let ghost was = context_view(context);
                    let key = self.context.key_at(i).clone();
                    let value = self.context.value_at(i).clone();
                    context.insert(key, value);
                    proof {
                        assert(context_view(context) =~= was.insert(mine[i as int].0@, mine[i as int].1@));
                        assert(front(mine, i + 1) == front(mine, i as int).insert(mine[i as int].0@, mine[i as int].1@));
                        assert(context_view(context) =~= before.union_prefer_right(front(mine, i + 1)));
                    }
                    i = i + 1;
                }
                proof {
                    use_type_invariant(&self.context);
                    lemma_front(mine, mine.len() as int);
                    assert(front(mine, mine.len() as int) =~= self@) by {
                        assert forall|k: Seq<char>| self@.contains_key(k) <==> has_key(mine, k) by {}
                        assert forall|k: Seq<char>| has_key(mine, k) implies front(mine, mine.len() as int)[k] == self@[k] by {
                            let j = key_index(mine, k);
                            lemma_entry(mine, j);
                            assert(mine[j].0@ == k);
                        }
                    }
                }
                DaggerError::Execution { component, message, context, source }
            },
            other => other,
        }
    }
}

/// The first `n` entries as a map.
spec fn front(entries: Seq<(String, String)>, n: int) -> Map<Seq<char>, Seq<char>>
    decreases n,
{
    if n <= 0 {
        Map::empty()
    } else {
        front(entries, n - 1).insert(entries[n - 1].0@, entries[n - 1].1@)
    }
}

proof fn lemma_front(entries: Seq<(String, String)>, n: int)
    requires
        0 <= n <= entries.len(),
        crate::string_map::distinct_keys(entries),
    ensures
        forall|k: Seq<char>| #[trigger]
            front(entries, n).contains_key(k) <==> exists|j: int| 0 <= j < n && (#[trigger] entries[j]).0@ == k,
        forall|j: int| 0 <= j < n ==> front(entries, n)[(#[trigger] entries[j]).0@] == entries[j].1@,
    decreases n,
{
    if n > 0 {
        lemma_front(entries, n - 1);
        assert forall|k: Seq<char>| #[trigger] front(entries, n).contains_key(k) <==> exists|j: int|
            0 <= j < n && (#[trigger] entries[j]).0@ == k by {
            if front(entries, n).contains_key(k) {
                if k == entries[n - 1].0@ {
                    assert(entries[n - 1].0@ == k);
                } else {
                    assert(front(entries, n - 1).contains_key(k));
                    let j = choose|j: int| 0 <= j < n - 1 && (#[trigger] entries[j]).0@ == k;
                    assert(entries[j].0@ == k);
                }
            }
            if exists|j: int| 0 <= j < n && (#[trigger] entries[j]).0@ == k {
                let j = choose|j: int| 0 <= j < n && (#[trigger] entries[j]).0@ == k;
                if j < n - 1 {
                    assert(front(entries, n - 1).contains_key(k));
                }
            }
        }
        assert forall|j: int| 0 <= j < n implies front(entries, n)[(#[trigger] entries[j]).0@] == entries[j].1@ by {
            if j < n - 1 {
                assert(entries[j].0@ != entries[n - 1].0@);
            }
        }
    }
}

/// Context that was added last is found.
pub proof fn added_context_is_found(m: Map<Seq<char>, Seq<char>>, key: Seq<char>, value: Seq<char>)
    ensures
        m.insert(key, value).contains_key(key),
        m.insert(key, value)[key] == value,
{
}

/// An error may pass with another try exactly where it is one of time, of tasks in each other's
/// way, of input or output, of a resource that is used up, or of a database.
pub proof fn some_errors_may_pass(e: &DaggerError, r: bool)
    requires
        call_ensures(DaggerError::is_recoverable, (e,), r),
    ensures
        *e is Timeout || *e is Concurrency || *e is Io || *e is ResourceExhaustion || *e is Database ==> r,
        *e is Execution || *e is Validation || *e is Configuration || *e is Serialization || *e is Task || *e is Agent
            || *e is Channel || *e is Cancelled || *e is Internal ==> !r,
{
}

/// Each kind of error has its word.
pub proof fn kinds_have_their_words(e: &DaggerError, r: &'static str)
    requires
        call_ensures(DaggerError::category, (e,), r),
    ensures
        *e is Execution ==> r@ == "execution"@,
        *e is ResourceExhaustion ==> r@ == "resource"@,
        *e is Validation ==> r@ == "validation"@,
        *e is Configuration ==> r@ == "configuration"@,
        *e is Database ==> r@ == "database"@,
        *e is Io ==> r@ == "io"@,
        *e is Serialization ==> r@ == "serialization"@,
        *e is Concurrency ==> r@ == "concurrency"@,
        *e is Task ==> r@ == "task"@,
        *e is Agent ==> r@ == "agent"@,
        *e is Channel ==> r@ == "channel"@,
        *e is Timeout ==> r@ == "timeout"@,
        *e is Cancelled ==> r@ == "cancelled"@,
        *e is Internal ==> r@ == "internal"@,
{
}

/// What an error says names what it holds.
pub proof fn messages_name_what_failed(e: &DaggerError, r: String)
    requires
        call_ensures(DaggerError::message, (e,), r),
    ensures
        *e matches DaggerError::Execution { component, message, .. } ==> r@ == "Execution failed in "@ + component@ + ": "@
            + message@,
        *e matches DaggerError::ResourceExhaustion { resource, current, limit, .. } ==> r@ == "Resource exhausted: "@ + resource@
            + " (current: "@ + decimal(current as nat) + ", limit: "@ + decimal(limit as nat) + ")"@,
        *e matches DaggerError::Validation { message, .. } ==> r@ == "Validation failed: "@ + message@,
        *e matches DaggerError::Configuration { message, .. } ==> r@ == "Configuration error: "@ + message@,
        *e matches DaggerError::Database { operation, .. } ==> r@ == "Database operation failed: "@ + operation@,
        *e matches DaggerError::Io { operation, .. } ==> r@ == "IO operation failed: "@ + operation@,
        *e matches DaggerError::Serialization { format, .. } ==> r@ == "Serialization failed: "@ + format@,
        *e matches DaggerError::Concurrency { operation, .. } ==> r@ == "Concurrency error: "@ + operation@,
        *e matches DaggerError::Task { task_id, message, .. } ==> r@ == "Task error: "@ + task_id@ + " - "@ + message@,
        *e matches DaggerError::Agent { agent, message, .. } ==> r@ == "Agent error: "@ + agent@ + " - "@ + message@,
        *e matches DaggerError::Channel { channel, message, .. } ==> r@ == "Channel error: "@ + channel@ + " - "@ + message@,
        *e matches DaggerError::Timeout { operation, timeout_ms } ==> r@ == "Operation timed out: "@ + operation@
            + " (timeout: "@ + decimal(timeout_ms as nat) + "ms)"@,
        *e matches DaggerError::Cancelled { operation, .. } ==> r@ == "Operation was cancelled: "@ + operation@,
        *e matches DaggerError::Internal { message, .. } ==> r@ == "Internal error: "@ + message@,
{
    if let DaggerError::ResourceExhaustion { resource, current, limit, details } = *e {
        assert(r@ =~= "Resource exhausted: "@ + resource@ + " (current: "@ + decimal(current as nat) + ", limit: "@ + decimal(
            limit as nat,
        ) + ")"@);
    }
}

/// An error holds what it was made of, each thing in its place.
pub proof fn errors_hold_what_they_are_made_of(
    a: &str,
    b: &str,
    n: u64,
    m: u64,
    execution: DaggerError,
    exhausted: DaggerError,
    validation: DaggerError,
    configuration: DaggerError,
    concurrency: DaggerError,
    channel: DaggerError,
    timeout: DaggerError,
)
    requires
        call_ensures(DaggerError::execution, (a, b), execution),
        call_ensures(DaggerError::resource_exhausted, (a, n, m), exhausted),
        call_ensures(DaggerError::validation, (a,), validation),
        call_ensures(DaggerError::configuration, (a,), configuration),
        call_ensures(DaggerError::concurrency, (a,), concurrency),
        call_ensures(DaggerError::channel, (a, b), channel),
        call_ensures(DaggerError::timeout, (a, n), timeout),
    ensures
        execution matches DaggerError::Execution { component, message, context, source } && component@ == a@ && message@ == b@
            && context@.dom() =~= Set::<Seq<char>>::empty() && source is None,
        exhausted matches DaggerError::ResourceExhaustion { resource, current, limit, details } && resource@ == a@ && current
            == n && limit == m && details is None,
        validation matches DaggerError::Validation { message, field, schema, source } && message@ == a@ && field is None
            && schema is None && source is None,
        configuration matches DaggerError::Configuration { message, field, expected, actual } && message@ == a@
            && field is None && expected is None && actual is None,
        concurrency matches DaggerError::Concurrency { operation, timeout_ms, source } && operation@ == a@
            && timeout_ms is None && source is None,
        channel matches DaggerError::Channel { channel: c, message, operation } && c@ == a@ && message@ == b@
            && operation is None,
        timeout matches DaggerError::Timeout { operation, timeout_ms } && operation@ == a@ && timeout_ms == n,
{
    if let DaggerError::Execution { component, message, context, source } = execution {
        assert(context_view(context).dom() =~= context@.dom());
    }
}

/// Context that is added to an execution error is found there, and what was there under other
/// keys stays; no other error has context.
pub proof fn context_is_added(e: DaggerError, key: &str, value: &str, r: DaggerError)
    requires
        call_ensures(DaggerError::with_context, (e, key, value), r),
    ensures
        !(e is Execution) ==> r == e,
        e is Execution ==> r is Execution && r.context().contains_key(key@) && r.context()[key@] == value@,
        e is Execution ==> forall|k: Seq<char>|
            k != key@ ==> (#[trigger] r.context().contains_key(k) <==> e.context().contains_key(k)) && r.context()[k]
                == e.context()[k],
{
}

/// Collected context ends up in an execution error; where both have a key, the collected one
/// counts.
pub proof fn collected_context_is_applied(c: ErrorContext, e: DaggerError, r: DaggerError, k: Seq<char>)
    requires
        call_ensures(ErrorContext::apply_to_error, (c, e), r),
    ensures
        !(e is Execution) ==> r == e,
        e is Execution && c@.contains_key(k) ==> r.context().contains_key(k) && r.context()[k] == c@[k],
        e is Execution && !c@.contains_key(k) ==> (r.context().contains_key(k) <==> e.context().contains_key(k)) && (
        e.context().contains_key(k) ==> r.context()[k] == e.context()[k]),
{
}

/// Errors from elsewhere are told by where they come from, and kept.
pub proof fn outside_errors_are_kept(
    io: std::io::Error,
    json: anyhow::Error,
    sled: anyhow::Error,
    a: DaggerError,
    b: DaggerError,
    c: DaggerError,
)
    requires
        call_ensures(DaggerError::from_io, (io,), a),
        call_ensures(DaggerError::from_json, (json,), b),
        call_ensures(DaggerError::from_sled, (sled,), c),
    ensures
        a matches DaggerError::Io { operation, source } && operation@ == "io_operation"@ && source == io,
        b matches DaggerError::Serialization { format, source } && format@ == "json"@ && source == json,
        c matches DaggerError::Database { operation, source } && operation@ == "sled_operation"@ && source == sled,
{
}

} // verus!
