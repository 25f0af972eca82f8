//! What a node's action is given and what it returns.

use crate::text::{cat3, owned};
use crate::value::{member, Json, Value};
use vstd::prelude::*;

verus! {

/// What an action is given. `D` is data of the application.
pub struct NodeCtx<D> {
    pub dag_name: String,
    pub node_id: String,
    pub inputs: Value,
    pub app_data: Option<D>,
}

impl<D> NodeCtx<D> {
    /// The context of a node, without data of the application.
    pub fn new(dag_name: &str, node_id: &str, inputs: Value) -> (r: Self)
        ensures
            r.dag_name@ == dag_name@,
            r.node_id@ == node_id@,
            r.inputs == inputs,
            r.app_data is None,
    {
        NodeCtx { dag_name: owned(dag_name), node_id: owned(node_id), inputs, app_data: None }
    }

    /// Sets the data of the application.
    pub fn with_app_data(self, data: D) -> (r: Self)
        ensures
            r == (NodeCtx { app_data: Some(data), ..self }),
    {
        NodeCtx { app_data: Some(data), ..self }
    }

    /// The input called `key`.
    pub fn get_input(&self, key: &str) -> (r: Result<Value, String>)
        ensures
            r is Ok <==> member(self.inputs@, key@) is Some,
            r matches Ok(v) ==> member(self.inputs@, key@) == Some(v@),
            r matches Err(e) ==> e@ == "Input '"@ + key@ + "' not found"@,
    {
        match self.inputs.get(key) {
            Some(v) => Ok(v.clone()),
            None => Err(cat3("Input '", key, "' not found")),
        }
    }

    /// The input called `key`, where it is there and not `null`.
    pub fn get_input_opt(&self, key: &str) -> (r: Option<Value>)
        ensures
            r is Some <==> member(self.inputs@, key@) is Some && member(self.inputs@, key@) != Some(Json::Null),
            r matches Some(v) ==> member(self.inputs@, key@) == Some(v@),
    {
        match self.inputs.get(key) {
            Some(v) => if v.is_null() {
                None
            } else {
                Some(v.clone())
            },
            None => None,
        }
    }
}

/// What an action returns.
#[derive(Debug)]
pub struct NodeOutput {
    pub outputs: Option<Value>,
    pub success: bool,
    pub metadata: Option<Value>,
}

impl NodeOutput {
    /// Success, with outputs.
    pub fn success(outputs: Value) -> (r: Self)
        ensures
            r == (NodeOutput { outputs: Some(outputs), success: true, metadata: None }),
    {
        NodeOutput { outputs: Some(outputs), success: true, metadata: None }
    }

    /// Success, without outputs.
    pub fn success_empty() -> (r: Self)
        ensures
            r == (NodeOutput { outputs: None, success: true, metadata: None }),
    {
        NodeOutput { outputs: None, success: true, metadata: None }
    }

    /// Failure.
    pub fn failure() -> (r: Self)
        ensures
            r == (NodeOutput { outputs: None, success: false, metadata: None }),
    {
        NodeOutput { outputs: None, success: false, metadata: None }
    }

    /// Adds metadata.
    pub fn with_metadata(self, metadata: Value) -> (r: Self)
        ensures
            r == (NodeOutput { metadata: Some(metadata), ..self }),
    {
        NodeOutput { metadata: Some(metadata), ..self }
    }
}

/// The action that returns its inputs.
pub struct EchoAction;

impl EchoAction {
    /// What the action is called.
    pub fn name(&self) -> (r: &'static str)
        ensures
            r@ == "echo"@,
    {
        "echo"
    }

    /// Returns the inputs.
    pub fn execute<D>(&self, ctx: &NodeCtx<D>) -> (r: NodeOutput)
        ensures
            r.success,
            r.outputs is Some && r.outputs->0@ == ctx.inputs@,
            r.metadata is None,
    {
        NodeOutput::success(ctx.inputs.clone())
    }
}

/// An input is had by its name; a missing one is named, and `null` counts as missing where an
/// input need not be there.
pub proof fn inputs_are_had_by_name<D>(
    ctx: &NodeCtx<D>,
    key: &str,
    r: Result<Value, String>,
    s: Option<Value>,
    found: Option<&Value>,
)
    requires
        call_ensures(NodeCtx::<D>::get_input, (ctx, key), r),
        call_ensures(NodeCtx::<D>::get_input_opt, (ctx, key), s),
        call_ensures(Value::get, (&ctx.inputs, key), found),
    ensures
        found matches Some(v) ==> (r matches Ok(x) && x@ == v@),
        found is None ==> (r matches Err(e) && e@ == "Input '"@ + key@ + "' not found"@),
        found is Some && !(found->0@ is Null) ==> (s matches Some(x) && x@ == found->0@),
        found is None || found->0@ is Null ==> s is None,
{
}

/// The echo returns what it is given, under its name.
pub proof fn echo_returns_its_inputs<D>(a: &EchoAction, ctx: &NodeCtx<D>, name: &'static str, r: NodeOutput)
    requires
        call_ensures(EchoAction::name, (a,), name),
        call_ensures(EchoAction::execute::<D>, (a, ctx), r),
    ensures
        name@ == "echo"@,
        r.success && r.metadata is None && r.outputs is Some && r.outputs->0@ == ctx.inputs@,
{
}

} // verus!
