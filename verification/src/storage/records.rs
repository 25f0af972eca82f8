//! The records of the database and how they are written and read.

use crate::clock::{is_ordinary, is_time, parse_rfc3339, text_time, time_text, to_rfc3339};
use crate::dag_flow::tree::Timestamp;
use crate::text::{cat2, clone_opt, owned, same};
use vstd::prelude::*;

verus! {

/// How far a run of a flow has come.
#[derive(Debug, Clone, Copy, PartialEq, Eq, Structural)]
pub enum FlowRunStatus {
    Pending,
    Running,
    Completed,
    Failed,
    Cancelled,
}

impl FlowRunStatus {
    /// The word for it.
    pub open spec fn word(self) -> Seq<char> {
        match self {
            FlowRunStatus::Pending => "pending"@,
            FlowRunStatus::Running => "running"@,
            FlowRunStatus::Completed => "completed"@,
            FlowRunStatus::Failed => "failed"@,
            FlowRunStatus::Cancelled => "cancelled"@,
        }
    }

    /// The word for it.
    pub fn as_str(&self) -> (r: &'static str)
        ensures
            r@ == self.word(),
    {
        match self {
            FlowRunStatus::Pending => "pending",
            FlowRunStatus::Running => "running",
            FlowRunStatus::Completed => "completed",
            FlowRunStatus::Failed => "failed",
            FlowRunStatus::Cancelled => "cancelled",
        }
    }

    /// What a word stands for.
    pub fn from_str(s: &str) -> (r: Result<Self, String>)
        ensures
            r matches Ok(v) ==> v.word() == s@,
            r is Ok <==> exists|v: FlowRunStatus| #![trigger v.word()] v.word() == s@,
            r matches Err(e) ==> e@ == "Unknown flow run status: "@ + s@,
    {
        if same(s, "pending") {
            proof {
                assert(FlowRunStatus::Pending.word() == s@);
            }
            return Ok(FlowRunStatus::Pending);
        }
        if same(s, "running") {
            proof {
                assert(FlowRunStatus::Running.word() == s@);
            }
            return Ok(FlowRunStatus::Running);
        }
        if same(s, "completed") {
            proof {
                assert(FlowRunStatus::Completed.word() == s@);
            }
            return Ok(FlowRunStatus::Completed);
        }
        if same(s, "failed") {
            proof {
                assert(FlowRunStatus::Failed.word() == s@);
            }
            return Ok(FlowRunStatus::Failed);
        }
        if same(s, "cancelled") {
            proof {
                assert(FlowRunStatus::Cancelled.word() == s@);
            }
            return Ok(FlowRunStatus::Cancelled);
        }
        proof {
            assert forall|v: FlowRunStatus| #[trigger] v.word() != s@ by {
                match v {
                    FlowRunStatus::Pending => {},
                    FlowRunStatus::Running => {},
                    FlowRunStatus::Completed => {},
                    FlowRunStatus::Failed => {},
                    FlowRunStatus::Cancelled => {},
                }
            }
        }
        Err(cat2("Unknown flow run status: ", s))
    }
}

/// Different states have different words, so that what is written is read back.
pub proof fn flow_status_is_read_back(a: FlowRunStatus, b: FlowRunStatus)
    requires
        a.word() == b.word(),
    ensures
        a == b,
{
    reveal_strlit("pending");
    assert("pending"@.len() == 7 && "pending"@[0] == 'p' && "pending"@[1] == 'e');
    reveal_strlit("running");
    assert("running"@.len() == 7 && "running"@[0] == 'r' && "running"@[1] == 'u');
    reveal_strlit("completed");
    assert("completed"@.len() == 9 && "completed"@[0] == 'c' && "completed"@[1] == 'o');
    reveal_strlit("failed");
    assert("failed"@.len() == 6 && "failed"@[0] == 'f' && "failed"@[1] == 'a');
    reveal_strlit("cancelled");
    assert("cancelled"@.len() == 9 && "cancelled"@[0] == 'c' && "cancelled"@[1] == 'a');
    assert(a.word().len() == b.word().len());
    assert(a.word()[0] == b.word()[0]);
    assert(a.word()[1] == b.word()[1]);
}

/// How far a run of a node has come.
#[derive(Debug, Clone, Copy, PartialEq, Eq, Structural)]
pub enum NodeRunStatus {
    Pending,
    Running,
    Completed,
    Failed,
    Skipped,
    Cancelled,
}

impl NodeRunStatus {
    /// The word for it.
    pub open spec fn word(self) -> Seq<char> {
        match self {
            NodeRunStatus::Pending => "pending"@,
            NodeRunStatus::Running => "running"@,
            NodeRunStatus::Completed => "completed"@,
            NodeRunStatus::Failed => "failed"@,
            NodeRunStatus::Skipped => "skipped"@,
            NodeRunStatus::Cancelled => "cancelled"@,
        }
    }

    /// The word for it.
    pub fn as_str(&self) -> (r: &'static str)
        ensures
            r@ == self.word(),
    {
        match self {
            NodeRunStatus::Pending => "pending",
            NodeRunStatus::Running => "running",
            NodeRunStatus::Completed => "completed",
            NodeRunStatus::Failed => "failed",
            NodeRunStatus::Skipped => "skipped",
            NodeRunStatus::Cancelled => "cancelled",
        }
    }

    /// What a word stands for.
    pub fn from_str(s: &str) -> (r: Result<Self, String>)
        ensures
            r matches Ok(v) ==> v.word() == s@,
            r is Ok <==> exists|v: NodeRunStatus| #![trigger v.word()] v.word() == s@,
            r matches Err(e) ==> e@ == "Unknown node run status: "@ + s@,
    {
        if same(s, "pending") {
            proof {
                assert(NodeRunStatus::Pending.word() == s@);
            }
            return Ok(NodeRunStatus::Pending);
        }
        if same(s, "running") {
            proof {
                assert(NodeRunStatus::Running.word() == s@);
            }
            return Ok(NodeRunStatus::Running);
        }
        if same(s, "completed") {
            proof {
                assert(NodeRunStatus::Completed.word() == s@);
            }
            return Ok(NodeRunStatus::Completed);
        }
        if same(s, "failed") {
            proof {
                assert(NodeRunStatus::Failed.word() == s@);
            }
            return Ok(NodeRunStatus::Failed);
        }
        if same(s, "skipped") {
            proof {
                assert(NodeRunStatus::Skipped.word() == s@);
            }
            return Ok(NodeRunStatus::Skipped);
        }
        if same(s, "cancelled") {
            proof {
                assert(NodeRunStatus::Cancelled.word() == s@);
            }
            return Ok(NodeRunStatus::Cancelled);
        }
        proof {
            assert forall|v: NodeRunStatus| #[trigger] v.word() != s@ by {
                match v {
                    NodeRunStatus::Pending => {},
                    NodeRunStatus::Running => {},
                    NodeRunStatus::Completed => {},
                    NodeRunStatus::Failed => {},
                    NodeRunStatus::Skipped => {},
                    NodeRunStatus::Cancelled => {},
                }
            }
        }
        Err(cat2("Unknown node run status: ", s))
    }
}

/// Different states have different words, so that what is written is read back.
pub proof fn node_status_is_read_back(a: NodeRunStatus, b: NodeRunStatus)
    requires
        a.word() == b.word(),
    ensures
        a == b,
{
    reveal_strlit("pending");
    assert("pending"@.len() == 7 && "pending"@[0] == 'p' && "pending"@[1] == 'e');
    reveal_strlit("running");
    assert("running"@.len() == 7 && "running"@[0] == 'r' && "running"@[1] == 'u');
    reveal_strlit("completed");
    assert("completed"@.len() == 9 && "completed"@[0] == 'c' && "completed"@[1] == 'o');
    reveal_strlit("failed");
    assert("failed"@.len() == 6 && "failed"@[0] == 'f' && "failed"@[1] == 'a');
    reveal_strlit("skipped");
    assert("skipped"@.len() == 7 && "skipped"@[0] == 's' && "skipped"@[1] == 'k');
    reveal_strlit("cancelled");
    assert("cancelled"@.len() == 9 && "cancelled"@[0] == 'c' && "cancelled"@[1] == 'a');
    assert(a.word().len() == b.word().len());
    assert(a.word()[0] == b.word()[0]);
    assert(a.word()[1] == b.word()[1]);
}

/// A run of a workflow. The parameters are a JSON text.
#[derive(Debug)]
pub struct FlowRun {
    pub id: String,
    pub name: String,
    pub status: FlowRunStatus,
    pub created_at: Timestamp,
    pub updated_at: Timestamp,
    pub started_at: Option<Timestamp>,
    pub finished_at: Option<Timestamp>,
    pub parameters: Option<String>,
    pub error_message: Option<String>,
}

/// A run of a node. Inputs and outputs are JSON texts.
#[derive(Debug)]
pub struct NodeRun {
    pub id: String,
    pub flow_run_id: String,
    pub node_name: String,
    pub status: NodeRunStatus,
    pub created_at: Timestamp,
    pub updated_at: Timestamp,
    pub started_at: Option<Timestamp>,
    pub finished_at: Option<Timestamp>,
    pub inputs: Option<String>,
    pub outputs: Option<String>,
    pub error_message: Option<String>,
    pub retry_count: i32,
}

/// Something that a run made. Data and metadata are JSON texts.
#[derive(Debug)]
pub struct Artifact {
    pub id: String,
    pub flow_run_id: Option<String>,
    pub node_run_id: Option<String>,
    pub key: String,
    pub artifact_type: String,
    pub created_at: Timestamp,
    pub data: Option<String>,
    pub file_path: Option<String>,
    pub metadata: Option<String>,
}

/// Something that happened and has to be told. The payload is a JSON text.
#[derive(Debug)]
pub struct OutboxEvent {
    pub id: String,
    pub event_type: String,
    pub payload: String,
    pub created_at: Timestamp,
    pub processed: bool,
    pub processed_at: Option<Timestamp>,
}

/// A task. Payload and result are JSON texts.
#[derive(Debug)]
pub struct Task {
    pub id: String,
    pub flow_run_id: Option<String>,
    pub name: String,
    pub status: String,
    pub created_at: Timestamp,
    pub updated_at: Timestamp,
    pub scheduled_at: Option<Timestamp>,
    pub started_at: Option<Timestamp>,
    pub finished_at: Option<Timestamp>,
    pub priority: i32,
    pub max_retries: i32,
    pub retry_count: i32,
    pub payload: Option<String>,
    pub result: Option<String>,
    pub error_message: Option<String>,
}

/// A task waits for another.
#[derive(Debug)]
pub struct TaskDependency {
    pub task_id: String,
    pub depends_on_task_id: String,
    pub created_at: Timestamp,
}

/// A value that runs share. It is a JSON text.
#[derive(Debug)]
pub struct SharedState {
    pub key: String,
    pub value: String,
    pub created_at: Timestamp,
    pub updated_at: Timestamp,
    pub version: i32,
    pub ttl: Option<Timestamp>,
}

/// Why an operation on the database failed. Errors of the database, of the files and of the
/// JSON library are kept as texts.
#[derive(Debug)]
pub enum StorageError {
    Database(String),
    JsonSerialization(String),
    Io(String),
    ParseError(String),
    InvalidStatus(String),
    ArtifactNotFound(String),
    FileOperation(String),
    Configuration(String),
}

impl StorageError {
    /// The error in words.
    pub open spec fn text(&self) -> Seq<char> {
        match *self {
            StorageError::Database(s) => "Database error: "@ + s@,
            StorageError::JsonSerialization(s) => "JSON serialization error: "@ + s@,
            StorageError::Io(s) => "IO error: "@ + s@,
            StorageError::ParseError(s) => "Date parse error: "@ + s@,
            StorageError::InvalidStatus(s) => "Invalid status: "@ + s@,
            StorageError::ArtifactNotFound(s) => "Artifact not found: "@ + s@,
            StorageError::FileOperation(s) => "File operation error: "@ + s@,
            StorageError::Configuration(s) => "Invalid configuration: "@ + s@,
        }
    }

    /// The error in words.
    pub fn message(&self) -> (r: String)
        ensures
            r@ == self.text(),
    {
        match self {
            StorageError::Database(s) => cat2("Database error: ", s.as_str()),
            StorageError::JsonSerialization(s) => cat2("JSON serialization error: ", s.as_str()),
            StorageError::Io(s) => cat2("IO error: ", s.as_str()),
            StorageError::ParseError(s) => cat2("Date parse error: ", s.as_str()),
            StorageError::InvalidStatus(s) => cat2("Invalid status: ", s.as_str()),
            StorageError::ArtifactNotFound(s) => cat2("Artifact not found: ", s.as_str()),
            StorageError::FileOperation(s) => cat2("File operation error: ", s.as_str()),
            StorageError::Configuration(s) => cat2("Invalid configuration: ", s.as_str()),
        }
    }
}

/// A row of the table of workflow runs.
#[derive(Debug)]
pub struct FlowRunRow {
    pub id: String,
    pub name: String,
    pub status: String,
    pub created_at: String,
    pub updated_at: String,
    pub started_at: Option<String>,
    pub finished_at: Option<String>,
    pub parameters: Option<String>,
    pub error_message: Option<String>,
}

/// A row of the table of node runs.
#[derive(Debug)]
pub struct NodeRunRow {
    pub id: String,
    pub flow_run_id: String,
    pub node_name: String,
    pub status: String,
    pub created_at: String,
    pub updated_at: String,
    pub started_at: Option<String>,
    pub finished_at: Option<String>,
    pub inputs: Option<String>,
    pub outputs: Option<String>,
    pub error_message: Option<String>,
    pub retry_count: i32,
}

/// Whether a time that may be left out can be written.
pub open spec fn is_opt_time(t: Option<Timestamp>) -> bool {
    t matches Some(x) ==> is_time(x)
}

/// Whether a time that may be left out is an ordinary one.
pub open spec fn is_opt_ordinary(t: Option<Timestamp>) -> bool {
    t matches Some(x) ==> is_ordinary(x)
}

/// Whether `text` is how `t` is written.
pub open spec fn writes(text: Seq<char>, t: Timestamp) -> bool {
    text == time_text(t.secs as int, t.nanos as int) && (is_ordinary(t) ==> says(text, t))
}

/// Whether `text` says the time `t`.
pub open spec fn says(text: Seq<char>, t: Timestamp) -> bool {
    text_time(text) == Some((t.secs as int, t.nanos as int))
}

/// Whether `text` is how a time that may be left out is written.
pub open spec fn writes_opt(text: Option<String>, t: Option<Timestamp>) -> bool {
    match t {
        Some(x) => text matches Some(s) && writes(s@, x),
        None => text is None,
    }
}

/// Whether `text` says a time, where it is there.
pub open spec fn says_opt(text: Option<String>, t: Option<Timestamp>) -> bool {
    match text {
        Some(s) => t matches Some(x) && says(s@, x),
        None => t is None,
    }
}

/// Whether a text that may be left out says a time, where it is there.
pub open spec fn readable(text: Option<String>) -> bool {
    text matches Some(s) ==> text_time(s@) is Some
}

fn write_opt(t: Option<Timestamp>) -> (r: Option<String>)
    requires
        is_opt_time(t),
    ensures
        writes_opt(r, t),
{
    match t {
        Some(x) => Some(to_rfc3339(x)),
        None => None,
    }
}

fn read_time(text: &str) -> (r: Result<Timestamp, StorageError>)
    ensures
        r is Ok <==> text_time(text@) is Some,
        r matches Ok(t) ==> says(text@, t),
        r matches Err(e) ==> e is ParseError,
{
    match parse_rfc3339(text) {
        Ok(t) => Ok(t),
        Err(e) => Err(StorageError::ParseError(e)),
    }
}

fn read_opt(text: &Option<String>) -> (r: Result<Option<Timestamp>, StorageError>)
    ensures
        r is Ok <==> readable(*text),
        r matches Ok(t) ==> says_opt(*text, t),
        r matches Err(e) ==> e is ParseError,
{
    match text {
        Some(s) => match read_time(s.as_str()) {
            Ok(t) => Ok(Some(t)),
            Err(e) => Err(e),
        },
        None => Ok(None),
    }
}

/// Whether `row` is how a run is written.
pub open spec fn row_of(row: FlowRunRow, run: FlowRun) -> bool {
    &&& row.id@ == run.id@
    &&& row.name@ == run.name@
    &&& row.status@ == run.status.word()
    &&& writes(row.created_at@, run.created_at)
    &&& writes(row.updated_at@, run.updated_at)
    &&& writes_opt(row.started_at, run.started_at)
    &&& writes_opt(row.finished_at, run.finished_at)
    &&& row.parameters == run.parameters
    &&& row.error_message == run.error_message
}

/// The row of a run of a workflow.
pub fn flow_run_row(run: &FlowRun) -> (r: FlowRunRow)
    requires
        is_time(run.created_at),
        is_time(run.updated_at),
        is_opt_time(run.started_at),
        is_opt_time(run.finished_at),
    ensures
        row_of(r, *run),
{
    FlowRunRow {
        id: run.id.clone(),
        name: run.name.clone(),
        status: owned(run.status.as_str()),
        created_at: to_rfc3339(run.created_at),
        updated_at: to_rfc3339(run.updated_at),
        started_at: write_opt(run.started_at),
        finished_at: write_opt(run.finished_at),
        parameters: clone_opt(&run.parameters),
        error_message: clone_opt(&run.error_message),
    }
}

/// Whether `run` is what a row says.
pub open spec fn run_of(run: FlowRun, row: FlowRunRow) -> bool {
    &&& run.id == row.id
    &&& run.name == row.name
    &&& run.status.word() == row.status@
    &&& says(row.created_at@, run.created_at)
    &&& says(row.updated_at@, run.updated_at)
    &&& says_opt(row.started_at, run.started_at)
    &&& says_opt(row.finished_at, run.finished_at)
    &&& run.parameters == row.parameters
    &&& run.error_message == row.error_message
}

/// The run of a workflow that a row says: its status has to be known, and its times have to be
/// times.
pub fn read_flow_run(row: FlowRunRow) -> (r: Result<FlowRun, StorageError>)
    ensures
        ({
            let known = exists|v: FlowRunStatus| #[trigger] v.word() == row.status@;
            let timed = text_time(row.created_at@) is Some && text_time(row.updated_at@) is Some && readable(row.started_at)
                && readable(row.finished_at);
            &&& r is Ok <==> known && timed
            &&& r matches Ok(run) ==> run_of(run, row)
            &&& !known ==> (r matches Err(StorageError::InvalidStatus(s)) && s@ == "Unknown flow run status: "@ + row.status@)
            &&& known && !timed ==> r is Err && r->Err_0 is ParseError
        }),
{
    let status = match FlowRunStatus::from_str(row.status.as_str()) {
        Ok(s) => s,
        Err(e) => {
            return Err(StorageError::InvalidStatus(e));
        },
    };
    let created_at = match read_time(row.created_at.as_str()) {
        Ok(t) => t,
        Err(e) => {
            return Err(e);
        },
    };
    let updated_at = match read_time(row.updated_at.as_str()) {
        Ok(t) => t,
        Err(e) => {
            return Err(e);
        },
    };
    let started_at = match read_opt(&row.started_at) {
        Ok(t) => t,
        Err(e) => {
            return Err(e);
        },
    };
    let finished_at = match read_opt(&row.finished_at) {
        Ok(t) => t,
        Err(e) => {
            return Err(e);
        },
    };
    Ok(
        FlowRun {
            id: row.id,
            name: row.name,
            status,
            created_at,
            updated_at,
            started_at,
            finished_at,
            parameters: row.parameters,
            error_message: row.error_message,
        },
    )
}

/// Whether all times of a run are ordinary ones.
pub open spec fn has_ordinary_times(run: FlowRun) -> bool {
    is_ordinary(run.created_at) && is_ordinary(run.updated_at) && is_opt_ordinary(run.started_at) && is_opt_ordinary(
        run.finished_at,
    )
}

/// What is read from the row of a run is the run that was written: the row can be read, and
/// whatever is read from it agrees in every field.
pub proof fn stored_run_is_read(run: FlowRun, row: FlowRunRow, read: FlowRun)
    requires
        has_ordinary_times(run),
        row_of(row, run),
        run_of(read, row),
    ensures
        text_time(row.created_at@) is Some,
        text_time(row.updated_at@) is Some,
        readable(row.started_at),
        readable(row.finished_at),
        read.id@ == run.id@,
        read.name@ == run.name@,
        read.status == run.status,
        read.created_at == run.created_at,
        read.updated_at == run.updated_at,
        read.started_at == run.started_at,
        read.finished_at == run.finished_at,
        read.parameters == run.parameters,
        read.error_message == run.error_message,
{
    flow_status_is_read_back(read.status, run.status);
}

/// Whether `row` is how a run of a node is written.
pub open spec fn node_row_of(row: NodeRunRow, run: NodeRun) -> bool {
    &&& row.id@ == run.id@
    &&& row.flow_run_id@ == run.flow_run_id@
    &&& row.node_name@ == run.node_name@
    &&& row.status@ == run.status.word()
    &&& writes(row.created_at@, run.created_at)
    &&& writes(row.updated_at@, run.updated_at)
    &&& writes_opt(row.started_at, run.started_at)
    &&& writes_opt(row.finished_at, run.finished_at)
    &&& row.inputs == run.inputs
    &&& row.outputs == run.outputs
    &&& row.error_message == run.error_message
    &&& row.retry_count == run.retry_count
}

/// The row of a run of a node.
pub fn node_run_row(run: &NodeRun) -> (r: NodeRunRow)
    requires
        is_time(run.created_at),
        is_time(run.updated_at),
        is_opt_time(run.started_at),
        is_opt_time(run.finished_at),
    ensures
        node_row_of(r, *run),
{
    NodeRunRow {
        id: run.id.clone(),
        flow_run_id: run.flow_run_id.clone(),
        node_name: run.node_name.clone(),
        status: owned(run.status.as_str()),
        created_at: to_rfc3339(run.created_at),
        updated_at: to_rfc3339(run.updated_at),
        started_at: write_opt(run.started_at),
        finished_at: write_opt(run.finished_at),
        inputs: clone_opt(&run.inputs),
        outputs: clone_opt(&run.outputs),
        error_message: clone_opt(&run.error_message),
        retry_count: run.retry_count,
    }
}

/// The text of a time as the database keeps it.
pub fn stored_time(t: Timestamp) -> (r: String)
    requires
        is_time(t),
    ensures
        writes(r@, t),
{
    to_rfc3339(t)
}

/// Each status of a run of a workflow has its word, which is read back as that status; another
/// word is refused.
pub proof fn flow_statuses_have_words(s: &FlowRunStatus, word: &'static str, text: &str, r: Result<FlowRunStatus, String>)
    requires
        call_ensures(FlowRunStatus::as_str, (s,), word),
        call_ensures(FlowRunStatus::from_str, (text,), r),
    ensures
        *s is Pending ==> word@ == "pending"@,
        *s is Running ==> word@ == "running"@,
        *s is Completed ==> word@ == "completed"@,
        *s is Failed ==> word@ == "failed"@,
        *s is Cancelled ==> word@ == "cancelled"@,
        text@ == word@ ==> r == Ok::<FlowRunStatus, String>(*s),
        text@ != "pending"@ && text@ != "running"@ && text@ != "completed"@ && text@ != "failed"@ && text@ != "cancelled"@
            ==> (r matches Err(e) && e@ == "Unknown flow run status: "@ + text@),
{
    if text@ == word@ {
        assert(s.word() == text@);
        if let Ok(v) = r {
            flow_status_is_read_back(v, *s);
        }
    }
}

/// Each status of a run of a node has its word, which is read back as that status; another word
/// is refused.
pub proof fn node_statuses_have_words(s: &NodeRunStatus, word: &'static str, text: &str, r: Result<NodeRunStatus, String>)
    requires
        call_ensures(NodeRunStatus::as_str, (s,), word),
        call_ensures(NodeRunStatus::from_str, (text,), r),
    ensures
        *s is Pending ==> word@ == "pending"@,
        *s is Running ==> word@ == "running"@,
        *s is Completed ==> word@ == "completed"@,
        *s is Failed ==> word@ == "failed"@,
        *s is Skipped ==> word@ == "skipped"@,
        *s is Cancelled ==> word@ == "cancelled"@,
        text@ == word@ ==> r == Ok::<NodeRunStatus, String>(*s),
        text@ != "pending"@ && text@ != "running"@ && text@ != "completed"@ && text@ != "failed"@ && text@ != "skipped"@ && text@
            != "cancelled"@ ==> (r matches Err(e) && e@ == "Unknown node run status: "@ + text@),
{
    if text@ == word@ {
        assert(s.word() == text@);
        if let Ok(v) = r {
            node_status_is_read_back(v, *s);
        }
    }
}

/// A run that is written as a row is read from it again, field by field.
pub proof fn written_run_is_read_back(run: &FlowRun, row: FlowRunRow, r: Result<FlowRun, StorageError>)
    requires
        call_ensures(flow_run_row, (run,), row),
        call_ensures(read_flow_run, (row,), r),
        is_ordinary(run.created_at),
        is_ordinary(run.updated_at),
        run.started_at matches Some(t) ==> is_ordinary(t),
        run.finished_at matches Some(t) ==> is_ordinary(t),
    ensures
        r matches Ok(x) && x.id@ == run.id@ && x.name@ == run.name@ && x.status == run.status && x.created_at == run.created_at
            && x.updated_at == run.updated_at && x.started_at == run.started_at && x.finished_at == run.finished_at
            && x.parameters == run.parameters && x.error_message == run.error_message,
{
    assert(run.status.word() == row.status@);
    assert(says(row.created_at@, run.created_at));
    assert(says(row.updated_at@, run.updated_at));
    if let Ok(x) = r {
        stored_run_is_read(*run, row, x);
    }
}

/// The row of a run of a node holds the run, field by field.
pub proof fn node_row_holds_the_run(run: &NodeRun, row: NodeRunRow)
    requires
        call_ensures(node_run_row, (run,), row),
    ensures
        row.id@ == run.id@ && row.flow_run_id@ == run.flow_run_id@ && row.node_name@ == run.node_name@,
        row.inputs == run.inputs && row.outputs == run.outputs && row.error_message == run.error_message && row.retry_count
            == run.retry_count,
        run.status is Pending ==> row.status@ == "pending"@,
        run.status is Running ==> row.status@ == "running"@,
        run.status is Completed ==> row.status@ == "completed"@,
        run.status is Failed ==> row.status@ == "failed"@,
        run.status is Skipped ==> row.status@ == "skipped"@,
        run.status is Cancelled ==> row.status@ == "cancelled"@,
        is_ordinary(run.created_at) ==> text_time(row.created_at@) == Some((run.created_at.secs as int, run.created_at.nanos as int)),
        is_ordinary(run.updated_at) ==> text_time(row.updated_at@) == Some((run.updated_at.secs as int, run.updated_at.nanos as int)),
        run.started_at is None <==> row.started_at is None,
        run.finished_at is None <==> row.finished_at is None,
{
}

/// Each error of the database is told in its words.
pub proof fn storage_errors_are_told(e: &StorageError, r: String)
    requires
        call_ensures(StorageError::message, (e,), r),
    ensures
        *e matches StorageError::Database(s) ==> r@ == "Database error: "@ + s@,
        *e matches StorageError::JsonSerialization(s) ==> r@ == "JSON serialization error: "@ + s@,
        *e matches StorageError::Io(s) ==> r@ == "IO error: "@ + s@,
        *e matches StorageError::ParseError(s) ==> r@ == "Date parse error: "@ + s@,
        *e matches StorageError::InvalidStatus(s) ==> r@ == "Invalid status: "@ + s@,
        *e matches StorageError::ArtifactNotFound(s) ==> r@ == "Artifact not found: "@ + s@,
        *e matches StorageError::FileOperation(s) ==> r@ == "File operation error: "@ + s@,
        *e matches StorageError::Configuration(s) ==> r@ == "Invalid configuration: "@ + s@,
{
}

} // verus!
