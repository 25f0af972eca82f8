//! Actions that want to change the executor, where the executor cannot be changed.

use super::cache::Cache;
use super::function_action::{bare_node, is_stand_in, object_members, store_inputs, with_values};
use super::node::Node;
use crate::coord::action::NodeOutput;
use crate::text::owned;
use crate::value::Value;
use vstd::prelude::*;

verus! {

/// An action that is not run: its inputs are stored where it would read them.
#[derive(Debug)]
pub struct LegacyNodeActionWrapper {
    name: String,
}

impl LegacyNodeActionWrapper {
    /// What the action is called.
    pub closed spec fn title(&self) -> Seq<char> {
        self.name@
    }

    /// Stands in for the action called `name`.
    pub fn new(name: &str) -> (r: Self)
        ensures
            r.title() == name@,
    {
        LegacyNodeActionWrapper { name: owned(name) }
    }

    /// What the action is called.
    pub fn name(&self) -> (r: &str)
        ensures
            r@ == self.title(),
    {
        self.name.as_str()
    }

    /// Stores the inputs of a node in the cache. The output is a success that says nothing;
    /// beside it stands the node that the action would be given.
    pub fn execute(&self, cache: &mut Cache, node_id: &str, inputs: &Value) -> (r: (Node, NodeOutput))
        ensures
            final(cache)@ == with_values(old(cache)@, node_id@, object_members(inputs@)),
            is_stand_in(r.0, node_id@, self.title()),
            r.0.inputs@.len() == 0,
            r.0.outputs@.len() == 0,
            r.1 == (NodeOutput { outputs: Some(Value::Null), success: true, metadata: None }),
    {
        let node = bare_node(node_id, self.name.as_str());
        store_inputs(cache, node_id, inputs);
        (node, NodeOutput::success(Value::Null))
    }
}

} // verus!
