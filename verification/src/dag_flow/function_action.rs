//! Functions as actions: the node and the cache that a function is given.

use super::cache::{with_value, Cache};
use super::node::{IField, Node, OField};
use crate::coord::action::NodeOutput;
use crate::text::{cat3, owned};
use crate::value::{Json, Value};
use vstd::prelude::*;

verus! {

/// The members of an object; none where the value is no object.
pub open spec fn object_members(v: Json) -> Seq<(Seq<char>, Json)> {
    match v {
        Json::Object(members) => members,
        _ => Seq::empty(),
    }
}

/// A cache after values were stored under a node, in order.
pub open spec fn with_values(m: Map<Seq<char>, Map<Seq<char>, Json>>, node: Seq<char>, members: Seq<(Seq<char>, Json)>) -> Map<
    Seq<char>,
    Map<Seq<char>, Json>,
>
    decreases members.len(),
{
    if members.len() == 0 {
        m
    } else {
        with_value(with_values(m, node, members.drop_last()), node, members.last().0, members.last().1)
    }
}

/// Stores the members of `inputs` under a node, where its function reads them.
pub fn store_inputs(cache: &mut Cache, node_id: &str, inputs: &Value)
    ensures
        final(cache)@ == with_values(old(cache)@, node_id@, object_members(inputs@)),
{
    match inputs {
        Value::Object(members) => {
            let ghost all = inputs@->Object_0;
            let mut i: usize = 0;
            proof {
                assert(all.take(0) =~= Seq::<(Seq<char>, Json)>::empty());
            }
            while i < members.len()
                invariant
                    i <= members@.len(),
                    inputs matches Value::Object(v) && v == members,
                    all == inputs@->Object_0,
                    all.len() == members@.len(),
                    cache@ == with_values(old(cache)@, node_id@, all.take(i as int)),
                decreases members.len() - i,
            {
                proof {
                    assert(all.take(i + 1).drop_last() =~= all.take(i as int));
                    assert(all.take(i + 1).last() == all[i as int]);
                }
                cache.insert_value(node_id, members[i].0.as_str(), members[i].1.clone());
                i = i + 1;
            }
            proof {
                assert(all.take(i as int) =~= all);
            }
        },
        _ => {},
    }
}

/// The input that a function reads as `key`: it stands in the cache under its own node.
pub open spec fn stand_in_field(f: IField, node_id: Seq<char>, key: Seq<char>) -> bool {
    &&& f.name@ == key
    &&& f.description is None
    &&& f.reference@ == node_id + "."@ + key
}

/// Whether `node` stands in for the node that runs `action`, without inputs and outputs.
pub open spec fn is_stand_in(node: Node, node_id: Seq<char>, action: Seq<char>) -> bool {
    &&& node.id@ == node_id
    &&& node.action@ == action
    &&& node.dependencies@.len() == 0
    &&& node.failure@.len() == 0
    &&& !node.onfailure
    &&& node.description@.len() == 0
    &&& node.timeout == 30
    &&& node.try_count == 1
    &&& node.instructions is None
}

fn stand_in(node_id: &str, action: &str, inputs: Vec<IField>, outputs: Vec<OField>) -> (r: Node)
    ensures
        is_stand_in(r, node_id@, action@),
        r.inputs == inputs,
        r.outputs == outputs,
{
    Node {
        id: owned(node_id),
        action: owned(action),
        dependencies: Vec::new(),
        inputs,
        outputs,
        failure: String::new(),
        onfailure: false,
        description: String::new(),
        timeout: 30,
        try_count: 1,
        instructions: None,
    }
}

/// The node that an action is given which only knows its name.
pub fn bare_node(node_id: &str, action: &str) -> (r: Node)
    ensures
        is_stand_in(r, node_id@, action@),
        r.inputs@.len() == 0,
        r.outputs@.len() == 0,
{
    stand_in(node_id, action, Vec::new(), Vec::new())
}

/// The node that a function is given: the real one where it is known, else one whose inputs
/// are the members of `inputs` and whose only output is called `output`.
pub fn function_node(known: Option<&Node>, node_id: &str, action: &str, inputs: &Value) -> (r: Node)
    ensures
        known matches Some(n) ==> r@ == n@,
        known is None ==> {
            let members = object_members(inputs@);
            &&& is_stand_in(r, node_id@, action@)
            &&& r.inputs@.len() == members.len()
            &&& forall|i: int| 0 <= i < members.len() ==> stand_in_field(#[trigger] r.inputs@[i], node_id@, members[i].0)
            &&& r.outputs@.len() == 1
            &&& r.outputs@[0].name@ == "output"@
            &&& r.outputs@[0].description is None
        },
{
    if let Some(n) = known {
        return n.clone();
    }
    let mut fields: Vec<IField> = Vec::new();
    let ghost all = object_members(inputs@);
    match inputs {
        Value::Object(members) => {
            let mut i: usize = 0;
            while i < members.len()
                invariant
                    i <= members@.len(),
                    inputs matches Value::Object(v) && v == members,
                    all == inputs@->Object_0,
                    all.len() == members@.len(),
                    fields@.len() == i,
                    forall|j: int| 0 <= j < i ==> stand_in_field(#[trigger] fields@[j], node_id@, all[j].0),
                decreases members.len() - i,
            {
                let key = members[i].0.as_str();
                fields.push(
                    IField { name: members[i].0.clone(), description: None, reference: cat3(node_id, ".", key) },
                );
                proof {
                    assert(all[i as int].0 == key@);
                }
                i = i + 1;
            }
        },
        _ => {},
    }
    let mut outputs: Vec<OField> = Vec::new();
    outputs.push(OField { name: owned("output"), description: None });
    stand_in(node_id, action, fields, outputs)
}

/// A function under a name.
pub struct FunctionAction<F> {
    pub name: String,
    pub func: F,
}

impl<F> FunctionAction<F> {
    /// A function under a name.
    pub fn new(name: String, func: F) -> (r: Self)
        ensures
            r == (FunctionAction { name, func }),
    {
        FunctionAction { name, func }
    }

    /// What is returned for a function that returned: success, with nothing as outputs.
    pub fn output() -> (r: NodeOutput)
        ensures
            r == (NodeOutput { outputs: Some(Value::Null), success: true, metadata: None }),
    {
        NodeOutput::success(Value::Null)
    }
}

/// Whatever was stored under a node last is what its function reads.
pub proof fn stored_inputs_are_read(
    m: Map<Seq<char>, Map<Seq<char>, Json>>,
    node: Seq<char>,
    members: Seq<(Seq<char>, Json)>,
    i: int,
)
    requires
        0 <= i < members.len(),
        forall|j: int| i < j < members.len() ==> (#[trigger] members[j]).0 != members[i].0,
    ensures
        super::cache::lookup(with_values(m, node, members), node, members[i].0) == Some(members[i].1),
    decreases members.len(),
{
    let rest = members.drop_last();
    if i < members.len() - 1 {
        assert(rest[i] == members[i]);
        assert forall|j: int| i < j < rest.len() implies (#[trigger] rest[j]).0 != rest[i].0 by {
            assert(members[j].0 != members[i].0);
        }
        stored_inputs_are_read(m, node, rest, i);
        assert(members[members.len() - 1].0 != members[i].0);
    }
}

/// What is stored under other nodes stays.
pub proof fn lemma_with_values_rest(
    m: Map<Seq<char>, Map<Seq<char>, Json>>,
    node: Seq<char>,
    members: Seq<(Seq<char>, Json)>,
    other: Seq<char>,
)
    requires
        other != node,
    ensures
        with_values(m, node, members).contains_key(other) <==> m.contains_key(other),
        with_values(m, node, members)[other] == m[other],
    decreases members.len(),
{
    if members.len() > 0 {
        lemma_with_values_rest(m, node, members.drop_last(), other);
    }
}

/// The members of what a node is given are stored under the node, each under its key, the last
/// of a key; other nodes keep what they have.
pub proof fn inputs_are_stored_under_the_node(cache: &mut Cache, node: &str, inputs: &Value, i: int, other: Seq<char>)
    requires
        call_ensures(store_inputs, (cache, node, inputs), ()),
    ensures
        inputs@ is Object && 0 <= i < inputs@->Object_0.len() && (forall|j: int|
            i < j < inputs@->Object_0.len() ==> (#[trigger] inputs@->Object_0[j]).0 != inputs@->Object_0[i].0) ==> final(cache)@.contains_key(node@) && final(cache)@[node@].contains_key(inputs@->Object_0[i].0) && final(cache)@[node@][inputs@->Object_0[i].0] == inputs@->Object_0[i].1,
        !(inputs@ is Object) ==> final(cache)@ == old(cache)@,
        other != node@ ==> (final(cache)@.contains_key(other) <==> old(cache)@.contains_key(other)) && final(cache)@[other] == old(cache)@[other],
{
    if inputs@ is Object && 0 <= i < inputs@->Object_0.len() && (forall|j: int|
        i < j < inputs@->Object_0.len() ==> (#[trigger] inputs@->Object_0[j]).0 != inputs@->Object_0[i].0) {
        stored_inputs_are_read(old(cache)@, node@, inputs@->Object_0, i);
    }
    if other != node@ {
        lemma_with_values_rest(old(cache)@, node@, object_members(inputs@), other);
    }
}

/// A function is given its node where that is known; else one that names each member of the
/// inputs, read from the cache under the node's own name.
pub proof fn function_gets_its_node(known: Option<&Node>, id: &str, action: &str, inputs: &Value, r: Node, i: int)
    requires
        call_ensures(function_node, (known, id, action, inputs), r),
    ensures
        known matches Some(n) ==> r@ == n@,
        known is None ==> r.id@ == id@ && r.action@ == action@ && r.timeout == 30 && r.try_count == 1 && !r.onfailure
            && r.dependencies@.len() == 0 && r.outputs@.len() == 1 && r.outputs@[0].name@ == "output"@,
        known is None && inputs@ is Object ==> r.inputs@.len() == inputs@->Object_0.len(),
        known is None && inputs@ is Object && 0 <= i < inputs@->Object_0.len() ==> r.inputs@[i].name@ == inputs@->Object_0[i].0
            && r.inputs@[i].reference@ == id@ + "."@ + inputs@->Object_0[i].0,
        known is None && !(inputs@ is Object) ==> r.inputs@.len() == 0,
{
    if known is None && inputs@ is Object && 0 <= i < inputs@->Object_0.len() {
        assert(stand_in_field(r.inputs@[i], id@, object_members(inputs@)[i].0));
    }
}

} // verus!
