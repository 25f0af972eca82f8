//! Nodes, graph definitions, outcomes and errors.

use super::config::DagConfig;
use crate::text::{cat2, clone_list, clone_opt, join, joined, views};
use vstd::prelude::*;

verus! {

/// An input of a node.
#[derive(Debug)]
pub struct IField {
    /// The name of the field.
    pub name: String,
    /// What it is for.
    pub description: Option<String>,
    /// The output of another node that it reads, as `node.output`.
    pub reference: String,
}

impl Clone for IField {
    fn clone(&self) -> (r: Self)
        ensures
            r == *self,
    {
        IField {
            name: self.name.clone(),
            description: clone_opt(&self.description),
            reference: self.reference.clone(),
        }
    }
}

/// An output of a node.
#[derive(Debug)]
pub struct OField {
    /// The name of the field.
    pub name: String,
    /// What it is for.
    pub description: Option<String>,
}

impl Clone for OField {
    fn clone(&self) -> (r: Self)
        ensures
            r == *self,
    {
        OField { name: self.name.clone(), description: clone_opt(&self.description) }
    }
}

fn clone_inputs(v: &Vec<IField>) -> (r: Vec<IField>)
    ensures
        r@ == v@,
{
    let mut r: Vec<IField> = Vec::new();
    let mut i: usize = 0;
    while i < v.len()
        invariant
            i <= v.len(),
            r@ == v@.take(i as int),
        decreases v.len() - i,
    {
        r.push(v[i].clone());
        proof {
            assert(v@.take(i + 1) =~= v@.take(i as int).push(v@[i as int]));
        }
        i = i + 1;
    }
    assert(v@.take(v@.len() as int) =~= v@);
    r
}

fn clone_outputs(v: &Vec<OField>) -> (r: Vec<OField>)
    ensures
        r@ == v@,
{
    let mut r: Vec<OField> = Vec::new();
    let mut i: usize = 0;
    while i < v.len()
        invariant
            i <= v.len(),
            r@ == v@.take(i as int),
        decreases v.len() - i,
    {
        r.push(v[i].clone());
        proof {
            assert(v@.take(i + 1) =~= v@.take(i as int).push(v@[i as int]));
        }
        i = i + 1;
    }
    assert(v@.take(v@.len() as int) =~= v@);
    r
}

/// A node of a workflow.
#[derive(Debug)]
pub struct Node {
    /// What the node is called.
    pub id: String,
    /// The nodes that come before it.
    pub dependencies: Vec<String>,
    /// What it reads.
    pub inputs: Vec<IField>,
    /// What it writes.
    pub outputs: Vec<OField>,
    /// The action that it runs.
    pub action: String,
    /// The action that runs when it fails.
    pub failure: String,
    /// Whether it is tried again after a failure.
    pub onfailure: bool,
    /// What it is for.
    pub description: String,
    /// How long it may run, in seconds.
    pub timeout: u64,
    /// How often it is tried.
    pub try_count: u8,
    /// Instructions for whoever runs it.
    pub instructions: Option<Vec<String>>,
}

/// What a [`Node`] says.
#[verifier::ext_equal]
pub struct NodeView {
    pub id: Seq<char>,
    pub dependencies: Seq<Seq<char>>,
    pub inputs: Seq<IField>,
    pub outputs: Seq<OField>,
    pub action: Seq<char>,
    pub failure: Seq<char>,
    pub onfailure: bool,
    pub description: Seq<char>,
    pub timeout: u64,
    pub try_count: u8,
    pub instructions: Option<Seq<Seq<char>>>,
}

impl View for Node {
    type V = NodeView;

    open spec fn view(&self) -> NodeView {
        NodeView {
            id: self.id@,
            dependencies: views(self.dependencies@),
            inputs: self.inputs@,
            outputs: self.outputs@,
            action: self.action@,
            failure: self.failure@,
            onfailure: self.onfailure,
            description: self.description@,
            timeout: self.timeout,
            try_count: self.try_count,
            instructions: match self.instructions {
                Some(v) => Some(views(v@)),
                None => None,
            },
        }
    }
}

impl Clone for Node {
    fn clone(&self) -> (r: Self)
        ensures
            r@ == self@,
    {
        Node {
            id: self.id.clone(),
            dependencies: clone_list(&self.dependencies),
            inputs: clone_inputs(&self.inputs),
            outputs: clone_outputs(&self.outputs),
            action: self.action.clone(),
            failure: self.failure.clone(),
            onfailure: self.onfailure,
            description: self.description.clone(),
            timeout: self.timeout,
            try_count: self.try_count,
            instructions: match &self.instructions {
                Some(v) => Some(clone_list(v)),
                None => None,
            },
        }
    }
}

/// What a list of nodes says.
pub open spec fn node_views(nodes: Seq<Node>) -> Seq<NodeView> {
    Seq::new(nodes.len(), |i: int| nodes[i]@)
}

/// A workflow definition.
#[derive(Debug)]
pub struct Graph {
    /// The nodes.
    pub nodes: Vec<Node>,
    pub name: String,
    pub description: String,
    pub instructions: Option<Vec<String>>,
    pub tags: Vec<String>,
    pub author: String,
    pub version: String,
    pub signature: String,
    /// How the workflow is executed, where it says so.
    pub config: Option<DagConfig>,
}

/// What became of a node.
#[derive(Debug)]
pub struct NodeExecutionOutcome {
    pub node_id: String,
    /// Whether the node succeeded.
    pub success: bool,
    /// What went wrong in each attempt.
    pub retry_messages: Vec<String>,
    /// What went wrong in the end.
    pub final_error: Option<String>,
}

/// What a [`NodeExecutionOutcome`] says.
#[verifier::ext_equal]
pub struct OutcomeView {
    pub node_id: Seq<char>,
    pub success: bool,
    pub retry_messages: Seq<Seq<char>>,
    pub final_error: Option<Seq<char>>,
}

impl View for NodeExecutionOutcome {
    type V = OutcomeView;

    open spec fn view(&self) -> OutcomeView {
        OutcomeView {
            node_id: self.node_id@,
            success: self.success,
            retry_messages: views(self.retry_messages@),
            final_error: match self.final_error {
                Some(e) => Some(e@),
                None => None,
            },
        }
    }
}

impl Clone for NodeExecutionOutcome {
    fn clone(&self) -> (r: Self)
        ensures
            r@ == self@,
    {
        NodeExecutionOutcome {
            node_id: self.node_id.clone(),
            success: self.success,
            retry_messages: clone_list(&self.retry_messages),
            final_error: clone_opt(&self.final_error),
        }
    }
}

/// What became of a workflow.
#[derive(Debug)]
pub struct DagExecutionReport {
    /// What became of each node.
    pub node_outcomes: Vec<NodeExecutionOutcome>,
    /// Whether all went well.
    pub overall_success: bool,
    /// What went wrong, where something did.
    pub error: Option<String>,
}

/// The final errors of a list of outcomes, in order.
pub open spec fn final_errors(outcomes: Seq<NodeExecutionOutcome>) -> Seq<Seq<char>>
    decreases outcomes.len(),
{
    if outcomes.len() == 0 {
        Seq::empty()
    } else {
        let rest = final_errors(outcomes.drop_last());
        match outcomes.last().final_error {
            Some(e) => rest.push(e@),
            None => rest,
        }
    }
}

/// The error that a report gives: the one handed over, else the final errors of the
/// outcomes, a line each, where there are any.
pub open spec fn report_error(outcomes: Seq<NodeExecutionOutcome>, error: Option<Seq<char>>) -> Option<Seq<char>> {
    match error {
        Some(e) => Some(e),
        None => if final_errors(outcomes).len() == 0 {
            None
        } else {
            Some(joined(final_errors(outcomes), "\n"@))
        },
    }
}

/// The text inside an optional string.
pub open spec fn opt_view(s: Option<String>) -> Option<Seq<char>> {
    match s {
        Some(t) => Some(t@),
        None => None,
    }
}

/// Builds a report.
pub fn create_execution_report(
    node_outcomes: Vec<NodeExecutionOutcome>,
    overall_success: bool,
    error: Option<String>,
) -> (r: DagExecutionReport)
    ensures
        r.node_outcomes == node_outcomes,
        r.overall_success == overall_success,
        opt_view(r.error) == report_error(node_outcomes@, opt_view(error)),
{
    let error: Option<String> = match error {
        Some(e) => Some(e),
        None => {
            let mut messages: Vec<String> = Vec::new();
            let mut i: usize = 0;
            proof {
                assert(node_outcomes@.take(0) =~= Seq::<NodeExecutionOutcome>::empty());
                assert(views(messages@) =~= Seq::<Seq<char>>::empty());
            }
            while i < node_outcomes.len()
                invariant
                    i <= node_outcomes.len(),
                    views(messages@) == final_errors(node_outcomes@.take(i as int)),
                decreases node_outcomes.len() - i,
            {
                let ghost before = views(messages@);
                proof {
                    assert(node_outcomes@.take(i + 1).drop_last() =~= node_outcomes@.take(i as int));
                }
                if let Some(e) = &node_outcomes[i].final_error {
                    messages.push(e.clone());
                    proof {
                        assert(views(messages@) =~= before.push(e@));
                    }
                }
                i = i + 1;
            }
            proof {
                assert(node_outcomes@.take(i as int) =~= node_outcomes@);
                assert(views(messages@).len() == messages@.len());
            }
            if messages.len() > 0 {
                Some(join(&messages, "\n"))
            } else {
                None
            }
        },
    };
    DagExecutionReport { node_outcomes, overall_success, error }
}

/// What can go wrong with a workflow.
#[derive(Debug)]
pub enum DagError {
    LockError(String),
    NodeNotFound(String),
    ActionNotFound(String),
    SerializationError(String),
    DatabaseError(String),
    ValidationError(String),
    ExecutionError(String),
    InvalidGraph(String),
    Cancelled,
    ActionNotRegistered(String),
    DagNotFound(String),
    DependencyNotFound(String),
    InvalidState(String),
    NodeAlreadyExists(String),
    UnknownDatabaseError,
}

impl DagError {
    /// The text of the error.
    pub open spec fn text(&self) -> Seq<char> {
        match self {
            DagError::LockError(s) => "Lock error: "@ + s@,
            DagError::NodeNotFound(s) => "Node not found: "@ + s@,
            DagError::ActionNotFound(s) => "Action not found: "@ + s@,
            DagError::SerializationError(s) => "Serialization error: "@ + s@,
            DagError::DatabaseError(s) => "Database error: "@ + s@,
            DagError::ValidationError(s) => "Validation error: "@ + s@,
            DagError::ExecutionError(s) => "Execution error: "@ + s@,
            DagError::InvalidGraph(s) => "Invalid graph: "@ + s@,
            DagError::Cancelled => "Cancelled"@,
            DagError::ActionNotRegistered(s) => "Action not registered: "@ + s@,
            DagError::DagNotFound(s) => "DAG not found: "@ + s@,
            DagError::DependencyNotFound(s) => "Dependency not found: "@ + s@,
            DagError::InvalidState(s) => "Invalid state: "@ + s@,
            DagError::NodeAlreadyExists(s) => "Node already exists: "@ + s@,
            DagError::UnknownDatabaseError => "Unknown database error occurred"@,
        }
    }

    /// Says what went wrong.
    pub fn message(&self) -> (r: String)
        ensures
            r@ == self.text(),
    {
        match self {
            DagError::LockError(s) => cat2("Lock error: ", s.as_str()),
            DagError::NodeNotFound(s) => cat2("Node not found: ", s.as_str()),
            DagError::ActionNotFound(s) => cat2("Action not found: ", s.as_str()),
            DagError::SerializationError(s) => cat2("Serialization error: ", s.as_str()),
            DagError::DatabaseError(s) => cat2("Database error: ", s.as_str()),
            DagError::ValidationError(s) => cat2("Validation error: ", s.as_str()),
            DagError::ExecutionError(s) => cat2("Execution error: ", s.as_str()),
            DagError::InvalidGraph(s) => cat2("Invalid graph: ", s.as_str()),
            DagError::Cancelled => "Cancelled".to_owned(),
            DagError::ActionNotRegistered(s) => cat2("Action not registered: ", s.as_str()),
            DagError::DagNotFound(s) => cat2("DAG not found: ", s.as_str()),
            DagError::DependencyNotFound(s) => cat2("Dependency not found: ", s.as_str()),
            DagError::InvalidState(s) => cat2("Invalid state: ", s.as_str()),
            DagError::NodeAlreadyExists(s) => cat2("Node already exists: ", s.as_str()),
            DagError::UnknownDatabaseError => "Unknown database error occurred".to_owned(),
        }
    }
}

/// A report holds what became of the nodes. Its error is the one handed over; else the final
/// errors of the nodes, and none where no node has one.
pub proof fn report_tells_what_went_wrong(outcomes: Vec<NodeExecutionOutcome>, ok: bool, error: Option<String>, r: DagExecutionReport)
    requires
        call_ensures(create_execution_report, (outcomes, ok, error), r),
    ensures
        r.node_outcomes == outcomes,
        r.overall_success == ok,
        error matches Some(e) ==> (r.error matches Some(t) && t@ == e@),
        error is None ==> (r.error is None <==> forall|i: int|
            0 <= i < outcomes@.len() ==> (#[trigger] outcomes@[i]).final_error is None),
        error is None ==> forall|i: int|
            0 <= i < outcomes@.len() && (forall|j: int|
                0 <= j < outcomes@.len() && j != i ==> (#[trigger] outcomes@[j]).final_error is None) && (
            #[trigger] outcomes@[i]).final_error is Some ==> r.error is Some && r.error->0@ == outcomes@[i].final_error->0@,
        error is None ==> forall|i: int, j: int|
            0 <= i < j < outcomes@.len() && (forall|k: int|
                0 <= k < outcomes@.len() && k != i && k != j ==> (#[trigger] outcomes@[k]).final_error is None) && (
            #[trigger] outcomes@[i]).final_error is Some && (#[trigger] outcomes@[j]).final_error is Some ==> r.error is Some
                && r.error->0@ == outcomes@[i].final_error->0@ + "\n"@ + outcomes@[j].final_error->0@,
{
    lemma_final_errors(outcomes@);
    if error is None {
        assert forall|i: int|
            0 <= i < outcomes@.len() && (forall|j: int|
                0 <= j < outcomes@.len() && j != i ==> (#[trigger] outcomes@[j]).final_error is None) && (
            #[trigger] outcomes@[i]).final_error is Some implies r.error is Some && r.error->0@ == outcomes@[i].final_error->0@ by {
            lemma_one_final_error(outcomes@, i);
        }
        assert forall|i: int, j: int|
            0 <= i < j < outcomes@.len() && (forall|k: int|
                0 <= k < outcomes@.len() && k != i && k != j ==> (#[trigger] outcomes@[k]).final_error is None) && (
            #[trigger] outcomes@[i]).final_error is Some && (#[trigger] outcomes@[j]).final_error is Some implies r.error is Some
            && r.error->0@ == outcomes@[i].final_error->0@ + "\n"@ + outcomes@[j].final_error->0@ by {
            lemma_two_final_errors(outcomes@, i, j);
            let e = final_errors(outcomes@);
            assert(e.drop_last() =~= seq![outcomes@[i].final_error->0@]);
            reveal_with_fuel(joined, 2);
        }
    }
}

proof fn lemma_final_errors(outcomes: Seq<NodeExecutionOutcome>)
    ensures
        final_errors(outcomes).len() == 0 <==> forall|i: int|
            0 <= i < outcomes.len() ==> (#[trigger] outcomes[i]).final_error is None,
    decreases outcomes.len(),
{
    if outcomes.len() > 0 {
        let rest = outcomes.drop_last();
        lemma_final_errors(rest);
        assert(outcomes.last() == outcomes[outcomes.len() - 1]);
        if final_errors(outcomes).len() == 0 {
            assert forall|i: int| 0 <= i < outcomes.len() implies (#[trigger] outcomes[i]).final_error is None by {
                if i < rest.len() {
                    assert(rest[i].final_error is None);
                }
            }
        }
        if forall|i: int| 0 <= i < outcomes.len() ==> (#[trigger] outcomes[i]).final_error is None {
            assert forall|i: int| 0 <= i < rest.len() implies (#[trigger] rest[i]).final_error is None by {
                assert(outcomes[i].final_error is None);
            }
        }
    }
}

proof fn lemma_one_final_error(outcomes: Seq<NodeExecutionOutcome>, i: int)
    requires
        0 <= i < outcomes.len(),
        outcomes[i].final_error is Some,
        forall|j: int| 0 <= j < outcomes.len() && j != i ==> (#[trigger] outcomes[j]).final_error is None,
    ensures
        final_errors(outcomes) == seq![outcomes[i].final_error->0@],
    decreases outcomes.len(),
{
    let rest = outcomes.drop_last();
    if i == outcomes.len() - 1 {
        assert forall|k: int| 0 <= k < rest.len() implies (#[trigger] rest[k]).final_error is None by {
            assert(outcomes[k].final_error is None);
        }
        lemma_final_errors(rest);
        assert(final_errors(rest) =~= Seq::<Seq<char>>::empty());
        assert(final_errors(outcomes) =~= seq![outcomes[i].final_error->0@]);
    } else {
        assert(outcomes[outcomes.len() - 1].final_error is None);
        assert forall|k: int| 0 <= k < rest.len() && k != i implies (#[trigger] rest[k]).final_error is None by {
            assert(outcomes[k].final_error is None);
        }
        lemma_one_final_error(rest, i);
    }
}

proof fn lemma_two_final_errors(outcomes: Seq<NodeExecutionOutcome>, i: int, j: int)
    requires
        0 <= i < j < outcomes.len(),
        outcomes[i].final_error is Some,
        outcomes[j].final_error is Some,
        forall|k: int| 0 <= k < outcomes.len() && k != i && k != j ==> (#[trigger] outcomes[k]).final_error is None,
    ensures
        final_errors(outcomes) == seq![outcomes[i].final_error->0@, outcomes[j].final_error->0@],
    decreases outcomes.len(),
{
    let rest = outcomes.drop_last();
    if j == outcomes.len() - 1 {
        assert forall|k: int| 0 <= k < rest.len() && k != i implies (#[trigger] rest[k]).final_error is None by {
            assert(outcomes[k].final_error is None);
        }
        lemma_one_final_error(rest, i);
        assert(final_errors(outcomes) =~= seq![outcomes[i].final_error->0@, outcomes[j].final_error->0@]);
    } else {
        assert(outcomes[outcomes.len() - 1].final_error is None);
        assert forall|k: int| 0 <= k < rest.len() && k != i && k != j implies (#[trigger] rest[k]).final_error is None by {
            assert(outcomes[k].final_error is None);
        }
        lemma_two_final_errors(rest, i, j);
    }
}

/// What went wrong is told by its kind, and names what it is about.
pub proof fn workflow_errors_are_told(e: &DagError, r: String)
    requires
        call_ensures(DagError::message, (e,), r),
    ensures
        e matches DagError::LockError(s) ==> r@ == "Lock error: "@ + s@,
        e matches DagError::NodeNotFound(s) ==> r@ == "Node not found: "@ + s@,
        e matches DagError::ActionNotFound(s) ==> r@ == "Action not found: "@ + s@,
        e matches DagError::SerializationError(s) ==> r@ == "Serialization error: "@ + s@,
        e matches DagError::DatabaseError(s) ==> r@ == "Database error: "@ + s@,
        e matches DagError::ValidationError(s) ==> r@ == "Validation error: "@ + s@,
        e matches DagError::ExecutionError(s) ==> r@ == "Execution error: "@ + s@,
        e matches DagError::InvalidGraph(s) ==> r@ == "Invalid graph: "@ + s@,
        e is Cancelled ==> r@ == "Cancelled"@,
        e matches DagError::ActionNotRegistered(s) ==> r@ == "Action not registered: "@ + s@,
        e matches DagError::DagNotFound(s) ==> r@ == "DAG not found: "@ + s@,
        e matches DagError::DependencyNotFound(s) ==> r@ == "Dependency not found: "@ + s@,
        e matches DagError::InvalidState(s) ==> r@ == "Invalid state: "@ + s@,
        e matches DagError::NodeAlreadyExists(s) ==> r@ == "Node already exists: "@ + s@,
        e is UnknownDatabaseError ==> r@ == "Unknown database error occurred"@,
{
}

} // verus!
