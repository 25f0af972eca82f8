//! Events and commands of parallel execution.

use crate::value::Value;
use vstd::prelude::*;

pub use crate::dag_flow::planning::NodeSpec;

verus! {

/// A node of a workflow.
#[derive(Debug)]
pub struct NodeRef {
    pub dag_name: String,
    pub node_id: String,
}

impl Clone for NodeRef {
    fn clone(&self) -> (r: Self)
        ensures
            r == *self,
    {
        NodeRef { dag_name: self.dag_name.clone(), node_id: self.node_id.clone() }
    }
}

/// The result of a node.
#[derive(Debug)]
pub enum NodeOutcome {
    /// It ran.
    Success { outputs: Option<Value> },
    /// It was left out.
    Skipped,
}

/// What happened to a node.
#[allow(inconsistent_fields)]
#[derive(Debug)]
pub enum ExecutionEvent {
    NodeStarted { node: NodeRef },
    NodeCompleted { node: NodeRef, outcome: NodeOutcome },
    NodeFailed { node: NodeRef, error: String },
}

/// An event for those who follow a run.
#[derive(Debug)]
pub struct RuntimeEventV2 {
    pub version: u32,
    pub sequence: u64,
    pub run_id: String,
    pub timestamp: u64,
    pub event_type: String,
    pub data: Value,
}

/// What is to be done to a running workflow.
#[allow(inconsistent_fields)]
#[derive(Debug)]
pub enum ExecutorCommand {
    /// Add a node.
    AddNode { dag_name: String, spec: NodeSpec },
    /// Add nodes, all or none.
    AddNodes { dag_name: String, specs: Vec<NodeSpec> },
    /// Set what a node reads, before its own inputs.
    SetNodeInputs { dag_name: String, node_id: String, inputs: Value },
    /// Pause a branch.
    PauseBranch { branch_id: String, reason: Option<String> },
    /// Let a branch go on.
    ResumeBranch { branch_id: String },
    /// Cancel a branch.
    CancelBranch { branch_id: String },
    /// Tell those who follow the run.
    EmitEvent { event: RuntimeEventV2 },
}

} // verus!
