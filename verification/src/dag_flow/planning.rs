//! Plans: nodes that are to be added to a workflow.

use crate::string_map::StringMap;
use crate::text::{cat2, cat3, clone_list, clone_opt, dec_usize, decimal, owned, views};
use crate::value::{boolean, first_member_is_found, member, members_json, object, string, Json, Value};
use vstd::prelude::*;

verus! {

/// A node that is to be added to a workflow.
#[derive(Debug)]
pub struct NodeSpec {
    /// What the node is called; made up where it is `None`.
    pub id: Option<String>,
    /// The action that it runs.
    pub action: String,
    /// The nodes that come before it.
    pub deps: Vec<String>,
    /// What it reads.
    pub inputs: Value,
    /// How long it may run, in seconds.
    pub timeout: Option<u64>,
    /// How often it is tried.
    pub try_count: Option<u32>,
}

/// What a [`NodeSpec`] says.
#[verifier::ext_equal]
pub struct SpecView {
    pub id: Option<Seq<char>>,
    pub action: Seq<char>,
    pub deps: Seq<Seq<char>>,
    pub inputs: Json,
    pub timeout: Option<u64>,
    pub try_count: Option<u32>,
}

impl View for NodeSpec {
    type V = SpecView;

    open spec fn view(&self) -> SpecView {
        SpecView {
            id: match self.id {
                Some(s) => Some(s@),
                None => None,
            },
            action: self.action@,
            deps: views(self.deps@),
            inputs: self.inputs@,
            timeout: self.timeout,
            try_count: self.try_count,
        }
    }
}

impl Clone for NodeSpec {
    fn clone(&self) -> (r: Self)
        ensures
            r@ == self@,
    {
        NodeSpec {
            id: clone_opt(&self.id),
            action: self.action.clone(),
            deps: clone_list(&self.deps),
            inputs: self.inputs.clone(),
            timeout: self.timeout,
            try_count: self.try_count,
        }
    }
}

impl NodeSpec {
    /// A node for `action`, without dependencies and with an empty object as inputs.
    pub fn new(action: &str) -> (r: Self)
        ensures
            r@ == (SpecView {
                id: None,
                action: action@,
                deps: Seq::empty(),
                inputs: Json::Object(Seq::empty()),
                timeout: None,
                try_count: None,
            }),
    {
        let r = NodeSpec {
            id: None,
            action: owned(action),
            deps: Vec::new(),
            inputs: Value::Object(Vec::new()),
            timeout: None,
            try_count: None,
        };
        proof {
            assert(views(r.deps@) =~= Seq::<Seq<char>>::empty());
            assert(r.inputs@->Object_0 =~= Seq::<(Seq<char>, Json)>::empty());
        }
        r
    }

    /// Sets the id.
    pub fn with_id(self, id: &str) -> (r: Self)
        ensures
            r@ == (SpecView { id: Some(id@), ..self@ }),
    {
        NodeSpec { id: Some(owned(id)), ..self }
    }

    /// Sets the dependencies.
    pub fn with_deps(self, deps: Vec<String>) -> (r: Self)
        ensures
            r@ == (SpecView { deps: views(deps@), ..self@ }),
    {
        NodeSpec { deps, ..self }
    }

    /// Adds a dependency.
    pub fn with_dep(self, dep: &str) -> (r: Self)
        ensures
            r@ == (SpecView { deps: self@.deps.push(dep@), ..self@ }),
    {
        let mut deps: Vec<String> = self.deps;
        let ghost before = views(deps@);
        deps.push(owned(dep));
        proof {
            assert(views(deps@) =~= before.push(dep@));
        }
        NodeSpec {
            id: self.id,
            action: self.action,
            deps,
            inputs: self.inputs,
            timeout: self.timeout,
            try_count: self.try_count,
        }
    }

    /// Sets the inputs.
    pub fn with_inputs(self, inputs: Value) -> (r: Self)
        ensures
            r@ == (SpecView { inputs: inputs@, ..self@ }),
    {
        NodeSpec { inputs, ..self }
    }

    /// Sets the timeout.
    pub fn with_timeout(self, timeout: u64) -> (r: Self)
        ensures
            r@ == (SpecView { timeout: Some(timeout), ..self@ }),
    {
        NodeSpec { timeout: Some(timeout), ..self }
    }

    /// Sets how often the node is tried.
    pub fn with_retries(self, count: u32) -> (r: Self)
        ensures
            r@ == (SpecView { try_count: Some(count), ..self@ }),
    {
        NodeSpec { try_count: Some(count), ..self }
    }
}

/// What a list of nodes says.
pub open spec fn spec_views(v: Seq<NodeSpec>) -> Seq<SpecView> {
    Seq::new(v.len(), |i: int| v[i]@)
}

/// A plan under construction.
#[derive(Debug)]
pub struct Plan {
    /// The nodes so far.
    pub nodes: Vec<NodeSpec>,
    id_map: StringMap<String>,
    id_counter: usize,
}

/// What a [`Plan`] says: its nodes, the ids of the nodes that were added last under a
/// logical name, and how many ids it made up.
#[verifier::ext_equal]
pub struct PlanView {
    pub nodes: Seq<SpecView>,
    pub names: Map<Seq<char>, Seq<char>>,
    pub counter: nat,
}

impl View for Plan {
    type V = PlanView;

    closed spec fn view(&self) -> PlanView {
        PlanView {
            nodes: spec_views(self.nodes@),
            names: self.id_map@.map_values(|s: String| s@),
            counter: self.id_counter as nat,
        }
    }
}

/// The plan without nodes.
pub open spec fn empty_plan() -> PlanView {
    PlanView { nodes: Seq::empty(), names: Map::empty(), counter: 0 }
}

/// The next id that a plan makes up for `prefix`.
pub open spec fn next_id(p: PlanView, prefix: Seq<char>) -> Seq<char> {
    crate::text::numbered(prefix, p.counter + 1)
}

/// A plan with one more node.
pub open spec fn with_node(p: PlanView, spec: SpecView) -> PlanView {
    match spec.id {
        Some(id) => PlanView { nodes: p.nodes.push(spec), ..p },
        None => PlanView {
            nodes: p.nodes.push(SpecView { id: Some(next_id(p, spec.action)), ..spec }),
            names: p.names,
            counter: p.counter + 1,
        },
    }
}

/// A plan with one more node under a logical name, its id made up from `prefix`.
pub open spec fn with_named(p: PlanView, prefix: Seq<char>, spec: SpecView) -> PlanView {
    PlanView {
        nodes: p.nodes.push(SpecView { id: Some(next_id(p, prefix)), ..spec }),
        names: p.names.insert(prefix, next_id(p, prefix)),
        counter: p.counter + 1,
    }
}

/// A call of the tool `name`, after the node `dep`.
pub open spec fn tool_spec(dep: Seq<char>, name: Seq<char>, args: Json, run_id: Seq<char>) -> SpecView {
    SpecView {
        id: None,
        action: "tool_invoke_node"@,
        deps: seq![dep],
        inputs: Json::Object(
            seq![("args"@, args), ("run_id"@, Json::String(run_id)), ("tool_name"@, Json::String(name))],
        ),
        timeout: Some(30u64),
        try_count: Some(2u32),
    }
}

/// A node that works on the results of tools.
pub open spec fn continuation_spec(deps: Seq<Seq<char>>, inputs: Json) -> SpecView {
    SpecView { id: None, action: "continuation_node"@, deps, inputs, timeout: None, try_count: None }
}

/// A question to a language model, after the node `dep`.
pub open spec fn llm_spec(dep: Seq<char>, inputs: Json) -> SpecView {
    SpecView {
        id: None,
        action: "provider_llm_node"@,
        deps: seq![dep],
        inputs,
        timeout: Some(120u64),
        try_count: Some(1u32),
    }
}

/// The logical name of a call of the tool `name`.
pub open spec fn tool_name(name: Seq<char>) -> Seq<char> {
    "tool_"@ + name
}

impl Plan {
    /// The plan without nodes.
    pub fn new() -> (r: Self)
        ensures
            r@ == empty_plan(),
    {
        let r = Plan { nodes: Vec::new(), id_map: StringMap::new(), id_counter: 0 };
        proof {
            assert(r@ =~= empty_plan());
        }
        r
    }

    /// Makes up an id.
    fn gen_id(&mut self, prefix: &str) -> (r: String)
        requires
            old(self)@.counter < usize::MAX,
        ensures
            r@ == next_id(old(self)@, prefix@),
            final(self)@ == (PlanView { counter: old(self)@.counter + 1, ..old(self)@ }),
            final(self).nodes == old(self).nodes,
    {
        self.id_counter = self.id_counter + 1;
        cat3(prefix, "_", dec_usize(self.id_counter).as_str())
    }

    /// Adds a node and returns its id, which is made up from its action where it has none.
    pub fn add_node(&mut self, spec: NodeSpec) -> (r: String)
        requires
            old(self)@.counter < usize::MAX,
        ensures
            final(self)@ == with_node(old(self)@, spec@),
            final(self)@.nodes.last().id == Some(r@),
    {
        let ghost s = spec@;
        let node_id: String = match clone_opt(&spec.id) {
            Some(id) => id,
            None => self.gen_id(spec.action.as_str()),
        };
        let ghost before = self@;
        let spec = NodeSpec { id: Some(node_id.clone()), ..spec };
        self.nodes.push(spec);
        proof {
            assert(self@.nodes =~= before.nodes.push(spec@));
            assert(self@ =~= with_node(old(self)@, s));
        }
        node_id
    }

    fn push_named(&mut self, name: &str, spec: NodeSpec) -> (r: String)
        requires
            old(self)@.counter < usize::MAX,
        ensures
            r@ == next_id(old(self)@, name@),
            final(self)@ == with_named(old(self)@, name@, spec@),
    {
        let node_id = self.gen_id(name);
        let ghost before = self@;
        let spec = NodeSpec { id: Some(node_id.clone()), ..spec };
        self.nodes.push(spec);
        self.id_map.insert(owned(name), node_id.clone());
        proof {
            assert(self@.nodes =~= before.nodes.push(spec@));
            assert(self@.names =~= before.names.insert(name@, node_id@));
        }
        node_id
    }

    /// Adds a call of the tool `name` after the node `dep`.
    pub fn add_tool(&mut self, dep: &str, name: &str, args: Value, run_id: &str) -> (r: String)
        requires
            old(self)@.counter < usize::MAX,
        ensures
            r@ == next_id(old(self)@, tool_name(name@)),
            final(self)@ == with_named(old(self)@, tool_name(name@), tool_spec(dep@, name@, args@, run_id@)),
    {
        let logical = cat2("tool_", name);
        let mut members: Vec<(String, Value)> = Vec::new();
        members.push((owned("args"), args));
        members.push((owned("run_id"), string(run_id)));
        members.push((owned("tool_name"), string(name)));
        proof {
            assert(members_json(members@) =~= tool_spec(dep@, name@, args@, run_id@).inputs->Object_0);
        }
        let inputs = object(members);
        let mut deps: Vec<String> = Vec::new();
        deps.push(owned(dep));
        proof {
            assert(views(deps@) =~= seq![dep@]);
        }
        let spec = NodeSpec {
            id: None,
            action: owned("tool_invoke_node"),
            deps,
            inputs,
            timeout: Some(30),
            try_count: Some(2),
        };
        self.push_named(logical.as_str(), spec)
    }

    /// Adds a node that works on the results of the tools `dep_tool_ids`.
    pub fn add_continuation(&mut self, dep_tool_ids: &Vec<String>, inputs: Value) -> (r: String)
        requires
            old(self)@.counter < usize::MAX,
        ensures
            r@ == next_id(old(self)@, "continuation"@),
            final(self)@ == with_named(
                old(self)@,
                "continuation"@,
                continuation_spec(views(dep_tool_ids@), inputs@),
            ),
    {
        let spec = NodeSpec {
            id: None,
            action: owned("continuation_node"),
            deps: clone_list(dep_tool_ids),
            inputs,
            timeout: None,
            try_count: None,
        };
        self.push_named("continuation", spec)
    }

    /// Adds a question to a language model after the node `dep`.
    pub fn add_next_llm(&mut self, dep: &str, inputs: Value) -> (r: String)
        requires
            old(self)@.counter < usize::MAX,
        ensures
            r@ == next_id(old(self)@, "llm"@),
            final(self)@ == with_named(old(self)@, "llm"@, llm_spec(dep@, inputs@)),
    {
        let mut deps: Vec<String> = Vec::new();
        deps.push(owned(dep));
        proof {
            assert(views(deps@) =~= seq![dep@]);
        }
        let spec = NodeSpec {
            id: None,
            action: owned("provider_llm_node"),
            deps,
            inputs,
            timeout: Some(120),
            try_count: Some(1),
        };
        self.push_named("llm", spec)
    }

    /// The id of the node that was added last under a logical name.
    pub fn get_node_id(&self, logical_name: &str) -> (r: Option<&String>)
        ensures
            r is Some <==> self@.names.contains_key(logical_name@),
            r matches Some(id) ==> id@ == self@.names[logical_name@],
    {
        self.id_map.get(logical_name)
    }

    /// Starts over.
    pub fn clear(&mut self)
        ensures
            final(self)@ == empty_plan(),
    {
        self.nodes.clear();
        self.id_map.clear();
        self.id_counter = 0;
        proof {
            assert(self@ =~= empty_plan());
        }
    }

    /// How many nodes the plan has.
    pub fn len(&self) -> (r: usize)
        ensures
            r == self@.nodes.len(),
    {
        self.nodes.len()
    }

    /// Whether the plan has no nodes.
    pub fn is_empty(&self) -> (r: bool)
        ensures
            r == (self@.nodes.len() == 0),
    {
        self.nodes.len() == 0
    }
}

impl Default for Plan {
    fn default() -> (r: Self)
        ensures
            r@ == empty_plan(),
    {
        Plan::new()
    }
}

/// The tool calls of a list that name a tool and give arguments, in order.
pub open spec fn tool_calls(items: Seq<Json>) -> Seq<(Seq<char>, Json)>
    decreases items.len(),
{
    if items.len() == 0 {
        Seq::empty()
    } else {
        let rest = tool_calls(items.drop_last());
        match (member(items.last(), "name"@), member(items.last(), "arguments"@)) {
            (Some(Json::String(name)), Some(args)) => rest.push((name, args)),
            _ => rest,
        }
    }
}

/// A plan with the calls of `calls`, all after the node `llm`.
pub open spec fn with_tools(calls: Seq<(Seq<char>, Json)>, llm: Seq<char>, run_id: Seq<char>) -> PlanView
    decreases calls.len(),
{
    if calls.len() == 0 {
        empty_plan()
    } else {
        with_named(
            with_tools(calls.drop_last(), llm, run_id),
            tool_name(calls.last().0),
            tool_spec(llm, calls.last().0, calls.last().1, run_id),
        )
    }
}

/// The ids of the calls of `calls`.
pub open spec fn tool_ids(calls: Seq<(Seq<char>, Json)>) -> Seq<Seq<char>> {
    Seq::new(calls.len(), |i: int| crate::text::numbered(tool_name(calls[i].0), (i + 1) as nat))
}

/// The plan for the tool calls of a language model: the calls, a node that works on their
/// results, and the next question.
pub open spec fn llm_plan(calls: Seq<(Seq<char>, Json)>, llm: Seq<char>, run_id: Seq<char>) -> PlanView {
    let tools = with_tools(calls, llm, run_id);
    let cont = continuation_spec(
        tool_ids(calls),
        Json::Object(
            seq![("run_id"@, Json::String(run_id)), ("tool_count"@, Json::Number(decimal(calls.len())))],
        ),
    );
    let cont_id = next_id(tools, "continuation"@);
    with_named(
        with_named(tools, "continuation"@, cont),
        "llm"@,
        llm_spec(cont_id, Json::Object(seq![("continuation"@, Json::Bool(true)), ("run_id"@, Json::String(run_id))])),
    )
}

/// The calls that the output of a language model asks for.
pub open spec fn calls_of(output: Json) -> Seq<(Seq<char>, Json)> {
    match member(output, "tool_calls"@) {
        Some(Json::Array(items)) => tool_calls(items),
        _ => Seq::empty(),
    }
}

/// How many calls the output of a language model lists.
pub open spec fn listed_calls(output: Json) -> nat {
    match member(output, "tool_calls"@) {
        Some(Json::Array(items)) => items.len(),
        _ => 0,
    }
}

/// The plan for the tool calls that the output of a language model asks for; `None` where
/// it asks for none.
pub fn plan_from_llm_output(run_id: &str, llm_node_id: &str, output: &Value) -> (r: Option<Plan>)
    requires
        listed_calls(output@) < usize::MAX - 2,
    ensures
        r is Some <==> calls_of(output@).len() > 0,
        r matches Some(p) ==> p@ == llm_plan(calls_of(output@), llm_node_id@, run_id@),
{
    let mut plan = Plan::new();
    let listed = match output.get("tool_calls") {
        Some(v) => v.as_array(),
        None => None,
    };
    let items: &Vec<Value> = match listed {
        Some(items) => items,
        None => {
            return None;
        },
    };
    let ghost js = member(output@, "tool_calls"@)->0->Array_0;
    let mut ids: Vec<String> = Vec::new();
    let mut i: usize = 0;
    proof {
        assert(js.take(0) =~= Seq::<Json>::empty());
        assert(views(ids@) =~= tool_ids(tool_calls(js.take(0))));
    }
    while i < items.len()
        invariant
            i <= items.len(),
            js.len() == items@.len(),
            items@.len() < usize::MAX - 2,
            forall|j: int| 0 <= j < items@.len() ==> (#[trigger] items@[j])@ == js[j],
            plan@ == with_tools(tool_calls(js.take(i as int)), llm_node_id@, run_id@),
            plan@.counter == tool_calls(js.take(i as int)).len(),
            plan@.counter <= i,
            views(ids@) == tool_ids(tool_calls(js.take(i as int))),
        decreases items.len() - i,
    {
        let ghost before = tool_calls(js.take(i as int));
        proof {
            assert(js.take(i + 1).drop_last() =~= js.take(i as int));
            assert(js.take(i + 1).last() == items@[i as int]@);
        }
        let name = match items[i].get("name") {
            Some(v) => v.as_str(),
            None => None,
        };
        let args = items[i].get("arguments");
        if let Some(name) = name {
            if let Some(args) = args {
                let ghost call = (name@, args@);
                let id = plan.add_tool(llm_node_id, name, args.clone(), run_id);
                let ghost ids_before = views(ids@);
                ids.push(id);
                proof {
                    let after = tool_calls(js.take(i + 1));
                    assert(after == before.push(call));
                    assert(after.drop_last() =~= before);
                    assert(views(ids@) =~= ids_before.push(id@));
                    assert(views(ids@) =~= tool_ids(after));
                }
            }
        }
        i = i + 1;
    }
    proof {
        assert(js.take(i as int) =~= js);
        assert(views(ids@).len() == ids@.len());
    }
    if ids.len() == 0 {
        return None;
    }
    let mut members: Vec<(String, Value)> = Vec::new();
    members.push((owned("run_id"), string(run_id)));
    members.push((owned("tool_count"), Value::Number(dec_usize(ids.len()))));
    proof {
        assert(members@[1].1@ == Json::Number(decimal(tool_calls(js).len())));
        assert(members_json(members@) =~= seq![
            ("run_id"@, Json::String(run_id@)),
            ("tool_count"@, Json::Number(decimal(tool_calls(js).len()))),
        ]);
    }
    let inputs = object(members);
    let cont_id = plan.add_continuation(&ids, inputs);
    let mut members: Vec<(String, Value)> = Vec::new();
    members.push((owned("continuation"), boolean(true)));
    members.push((owned("run_id"), string(run_id)));
    proof {
        assert(members_json(members@) =~= seq![("continuation"@, Json::Bool(true)), ("run_id"@, Json::String(run_id@))]);
    }
    let inputs = object(members);
    plan.add_next_llm(cont_id.as_str(), inputs);
    Some(plan)
}

/// Two ids that a plan makes up one after the other differ, whatever the names.
pub proof fn made_up_ids_differ(p: PlanView, q: PlanView, a: Seq<char>, b: Seq<char>)
    requires
        p.counter != q.counter,
    ensures
        next_id(p, a) != next_id(q, b),
{
    crate::text::numbered_differ(a, p.counter + 1, b, q.counter + 1);
}

/// Whether an item of a list of tool calls names a tool and gives arguments.
pub open spec fn asks_for_a_tool(item: Json) -> bool {
    (member(item, "name"@) matches Some(name) && name is String) && member(item, "arguments"@) is Some
}

/// How many of the first `i` items ask for a tool.
pub open spec fn asked_before(items: Seq<Json>, i: int) -> nat {
    items.take(i).filter(|item: Json| asks_for_a_tool(item)).len()
}

proof fn lemma_asked(items: Seq<Json>, i: int)
    requires
        0 <= i < items.len(),
    ensures
        asked_before(items, i + 1) == asked_before(items, i) + (if asks_for_a_tool(items[i]) {
            1nat
        } else {
            0nat
        }),
{
    reveal(Seq::filter);
    assert(items.take(i + 1).drop_last() =~= items.take(i));
    assert(items.take(i + 1).last() == items[i]);
}

proof fn lemma_tool_calls(items: Seq<Json>, n: int)
    requires
        0 <= n <= items.len(),
    ensures
        tool_calls(items.take(n)).len() == asked_before(items, n),
        forall|i: int|
            0 <= i < n && asks_for_a_tool(#[trigger] items[i]) ==> asked_before(items, i) < tool_calls(items.take(n)).len()
                && tool_calls(items.take(n))[asked_before(items, i) as int] == (
                member(items[i], "name"@)->0->String_0,
                member(items[i], "arguments"@)->0,
            ),
    decreases n,
{
    reveal(Seq::filter);
    if n == 0 {
        assert(items.take(0) =~= Seq::<Json>::empty());
    } else {
        lemma_tool_calls(items, n - 1);
        lemma_asked(items, n - 1);
        assert(items.take(n).drop_last() =~= items.take(n - 1));
        assert(items.take(n).last() == items[n - 1]);
    }
}

proof fn lemma_with_tools(calls: Seq<(Seq<char>, Json)>, llm: Seq<char>, run_id: Seq<char>)
    ensures
        with_tools(calls, llm, run_id).counter == calls.len(),
        with_tools(calls, llm, run_id).nodes.len() == calls.len(),
        forall|k: int|
            0 <= k < calls.len() ==> (#[trigger] with_tools(calls, llm, run_id).nodes[k]) == (SpecView {
                id: Some(crate::text::numbered(tool_name(calls[k].0), (k + 1) as nat)),
                ..tool_spec(llm, calls[k].0, calls[k].1, run_id)
            }),
    decreases calls.len(),
{
    if calls.len() > 0 {
        lemma_with_tools(calls.drop_last(), llm, run_id);
        let before = with_tools(calls.drop_last(), llm, run_id);
        let all = with_tools(calls, llm, run_id);
        assert forall|k: int| 0 <= k < calls.len() implies (#[trigger] all.nodes[k]) == (SpecView {
            id: Some(crate::text::numbered(tool_name(calls[k].0), (k + 1) as nat)),
            ..tool_spec(llm, calls[k].0, calls[k].1, run_id)
        }) by {
            if k < calls.len() - 1 {
                assert(all.nodes[k] == before.nodes[k]);
                assert(calls.drop_last()[k] == calls[k]);
            }
        }
    }
}

/// Whether `node` calls a tool after the node `llm`, for the run `run_id`.
pub open spec fn calls_tool(node: SpecView, llm: Seq<char>, run_id: Seq<char>, name: Json, args: Json) -> bool {
    &&& node.action == "tool_invoke_node"@
    &&& node.deps == seq![llm]
    &&& member(node.inputs, "args"@) == Some(args)
    &&& member(node.inputs, "tool_name"@) == Some(name)
    &&& member(node.inputs, "run_id"@) == Some(Json::String(run_id))
    &&& node.timeout == Some(30u64)
    &&& node.try_count == Some(2u32)
}

proof fn lemma_calls_tool(llm: Seq<char>, run_id: Seq<char>, name: Seq<char>, args: Json)
    ensures
        calls_tool(tool_spec(llm, name, args, run_id), llm, run_id, Json::String(name), args),
{
    reveal_strlit("args");
    reveal_strlit("run_id");
    reveal_strlit("tool_name");
    let m = seq![("args"@, args), ("run_id"@, Json::String(run_id)), ("tool_name"@, Json::String(name))];
    assert("args"@.len() == 4 && "run_id"@.len() == 6 && "tool_name"@.len() == 9);
    first_member_is_found(m, 0);
    first_member_is_found(m, 1);
    first_member_is_found(m, 2);
}

/// Each tool call of a language model's output that has a name and arguments becomes a node, in
/// order, which calls the tool of that name with those arguments after the model's node.
pub proof fn tool_call_becomes_a_node(
    run_id: &str,
    llm_node_id: &str,
    output: &Value,
    r: Option<Plan>,
    items: Seq<Json>,
    i: int,
)
    requires
        call_ensures(plan_from_llm_output, (run_id, llm_node_id, output), r),
        member(output@, "tool_calls"@) == Some(Json::Array(items)),
        0 <= i < items.len(),
        asks_for_a_tool(items[i]),
    ensures
        r matches Some(p) && asked_before(items, i) < p@.nodes.len() && calls_tool(
            p@.nodes[asked_before(items, i) as int],
            llm_node_id@,
            run_id@,
            member(items[i], "name"@)->0,
            member(items[i], "arguments"@)->0,
        ),
{
    let n = items.len() as int;
    lemma_tool_calls(items, n);
    assert(items.take(n) =~= items);
    let calls = tool_calls(items);
    let k = asked_before(items, i) as int;
    lemma_with_tools(calls, llm_node_id@, run_id@);
    lemma_calls_tool(llm_node_id@, run_id@, calls[k].0, calls[k].1);
    if let Some(p) = r {
        assert(p@.nodes[k] == with_tools(calls, llm_node_id@, run_id@).nodes[k]);
        assert(p@.nodes[k] == p@.nodes[k]);
    }
}

/// There is a plan exactly where some call has a name and arguments. It has a node for each such
/// call, then one that works on the results of them all, and then the next question, after that
/// one; ids of the nodes of a plan are the ones that later nodes depend on.
pub proof fn plan_ends_with_the_next_question(
    run_id: &str,
    llm_node_id: &str,
    output: &Value,
    r: Option<Plan>,
    items: Seq<Json>,
)
    requires
        call_ensures(plan_from_llm_output, (run_id, llm_node_id, output), r),
        member(output@, "tool_calls"@) == Some(Json::Array(items)),
    ensures
        r is Some <==> asked_before(items, items.len() as int) > 0,
        r matches Some(p) ==> {
            let n = asked_before(items, items.len() as int) as int;
            let work = p@.nodes[n];
            let question = p@.nodes[n + 1];
            &&& p@.nodes.len() == n + 2
            &&& forall|k: int| 0 <= k < p@.nodes.len() ==> (#[trigger] p@.nodes[k]).id is Some
            &&& work.action == "continuation_node"@
            &&& work.deps.len() == n
            &&& forall|k: int| 0 <= k < n ==> Some(#[trigger] work.deps[k]) == p@.nodes[k].id
            &&& member(work.inputs, "run_id"@) == Some(Json::String(run_id@))
            &&& member(work.inputs, "tool_count"@) == Some(Json::Number(decimal(n as nat)))
            &&& question.action == "provider_llm_node"@
            &&& question.deps.len() == 1 && Some(question.deps[0]) == work.id
            &&& member(question.inputs, "run_id"@) == Some(Json::String(run_id@))
            &&& member(question.inputs, "continuation"@) == Some(Json::Bool(true))
            &&& question.timeout == Some(120u64) && question.try_count == Some(1u32)
        },
{
    let len = items.len() as int;
    lemma_tool_calls(items, len);
    assert(items.take(len) =~= items);
    let calls = tool_calls(items);
    lemma_with_tools(calls, llm_node_id@, run_id@);
    reveal_strlit("run_id");
    reveal_strlit("tool_count");
    reveal_strlit("continuation");
    assert("run_id"@.len() == 6 && "tool_count"@.len() == 10 && "continuation"@.len() == 12);
    let a = seq![("run_id"@, Json::String(run_id@)), ("tool_count"@, Json::Number(decimal(calls.len())))];
    let b = seq![("continuation"@, Json::Bool(true)), ("run_id"@, Json::String(run_id@))];
    first_member_is_found(a, 0);
    first_member_is_found(a, 1);
    first_member_is_found(b, 0);
    first_member_is_found(b, 1);
    if let Some(p) = r {
        let n = calls.len() as int;
        let tools = with_tools(calls, llm_node_id@, run_id@);
        assert forall|k: int| 0 <= k < n implies p@.nodes[k] == #[trigger] tools.nodes[k] by {}
        assert forall|k: int| 0 <= k < p@.nodes.len() implies (#[trigger] p@.nodes[k]).id is Some by {
            if k < n {
                assert(p@.nodes[k] == tools.nodes[k]);
            }
        }
        assert forall|k: int| 0 <= k < n implies Some(#[trigger] p@.nodes[n].deps[k]) == p@.nodes[k].id by {
            assert(p@.nodes[k] == tools.nodes[k]);
        }
    }
}

/// A plan grows by one node behind the others, which stay; the id that is returned is the
/// node's, and under the logical name it is found again.
pub proof fn tool_is_added(plan: &mut Plan, dep: &str, name: &str, args: Value, run_id: &str, r: String)
    requires
        call_ensures(Plan::add_tool, (plan, dep, name, args, run_id), r),
    ensures
        final(plan)@.nodes.len() == old(plan)@.nodes.len() + 1,
        forall|k: int| 0 <= k < old(plan)@.nodes.len() ==> (#[trigger] final(plan)@.nodes[k]) == old(plan)@.nodes[k],
        final(plan)@.nodes.last().id == Some(r@),
        calls_tool(final(plan)@.nodes.last(), dep@, run_id@, Json::String(name@), args@),
        final(plan)@.names.contains_key("tool_"@ + name@) && final(plan)@.names["tool_"@ + name@] == r@,
{
    lemma_calls_tool(dep@, run_id@, name@, args@);
}

/// A node that is added to a plan is its last, under the id that it has or that is made up, and
/// the others stay.
pub proof fn node_is_added_last(plan: &mut Plan, spec: NodeSpec, r: String)
    requires
        call_ensures(Plan::add_node, (plan, spec), r),
    ensures
        final(plan)@.nodes.len() == old(plan)@.nodes.len() + 1,
        forall|k: int| 0 <= k < old(plan)@.nodes.len() ==> (#[trigger] final(plan)@.nodes[k]) == old(plan)@.nodes[k],
        final(plan)@.nodes.last() == (SpecView { id: Some(r@), ..spec@ }),
        spec.id matches Some(id) ==> r@ == id@,
        spec.id is None ==> r@ == spec.action@ + "_"@ + decimal(old(plan)@.counter + 1),
        spec.id is None ==> final(plan)@.counter == old(plan)@.counter + 1,
        spec.id is Some ==> final(plan)@.counter == old(plan)@.counter,
        final(plan)@.names == old(plan)@.names,
{
}

/// What is set on a node that is to be added is what it then says, and nothing else changes.
pub proof fn setters_set_one_thing(
    spec: NodeSpec,
    id: &str,
    inputs: Value,
    timeout: u64,
    count: u32,
    a: NodeSpec,
    b: NodeSpec,
    c: NodeSpec,
    d: NodeSpec,
)
    requires
        call_ensures(NodeSpec::with_id, (spec, id), a),
        call_ensures(NodeSpec::with_inputs, (spec, inputs), b),
        call_ensures(NodeSpec::with_timeout, (spec, timeout), c),
        call_ensures(NodeSpec::with_retries, (spec, count), d),
    ensures
        a@.id == Some(id@) && a@.action == spec@.action && a@.deps == spec@.deps && a@.inputs == spec@.inputs,
        b@.inputs == inputs@ && b@.id == spec@.id && b@.action == spec@.action && b@.deps == spec@.deps,
        c@.timeout == Some(timeout) && c@.id == spec@.id && c@.inputs == spec@.inputs && c@.try_count == spec@.try_count,
        d@.try_count == Some(count) && d@.id == spec@.id && d@.inputs == spec@.inputs && d@.timeout == spec@.timeout,
{
}

/// A continuation waits for all tools that are named and has their inputs; a question to the
/// model waits for one node, for two minutes at most and once. Both are named by the next number.
pub proof fn following_steps_are_added(
    p: &mut Plan,
    q: &mut Plan,
    tools: &Vec<String>,
    dep: &str,
    inputs: Value,
    rp: String,
    rq: String,
)
    requires
        call_ensures(Plan::add_continuation, (p, tools, inputs), rp),
        call_ensures(Plan::add_next_llm, (q, dep, inputs), rq),
    ensures
        rp@ == "continuation"@ + "_"@ + crate::text::decimal(old(p)@.counter + 1),
        final(p)@.counter == old(p)@.counter + 1 && final(p)@.nodes.len() == old(p)@.nodes.len() + 1,
        final(p)@.nodes.last().id == Some(rp@) && final(p)@.nodes.last().action == "continuation_node"@
            && final(p)@.nodes.last().deps == views(tools@) && final(p)@.nodes.last().inputs == inputs@
            && final(p)@.nodes.last().timeout is None && final(p)@.nodes.last().try_count is None,
        final(p)@.nodes.drop_last() == old(p)@.nodes,
        rq@ == "llm"@ + "_"@ + crate::text::decimal(old(q)@.counter + 1),
        final(q)@.counter == old(q)@.counter + 1 && final(q)@.nodes.len() == old(q)@.nodes.len() + 1,
        final(q)@.nodes.last().id == Some(rq@) && final(q)@.nodes.last().action == "provider_llm_node"@
            && final(q)@.nodes.last().deps == seq![dep@] && final(q)@.nodes.last().inputs == inputs@
            && final(q)@.nodes.last().timeout == Some(120u64) && final(q)@.nodes.last().try_count == Some(1u32),
        final(q)@.nodes.drop_last() == old(q)@.nodes,
{
    assert(final(p)@.nodes.drop_last() =~= old(p)@.nodes);
    assert(final(q)@.nodes.drop_last() =~= old(q)@.nodes);
}

/// A new plan is empty, and so is one that was cleared.
pub proof fn plans_start_empty(r: Plan, p: &mut Plan)
    requires
        call_ensures(Plan::new, (), r),
        call_ensures(Plan::clear, (p,), ()),
    ensures
        r@.nodes.len() == 0 && r@.counter == 0 && r@.names == Map::<Seq<char>, Seq<char>>::empty(),
        final(p)@.nodes.len() == 0 && final(p)@.counter == 0 && final(p)@.names == Map::<Seq<char>, Seq<char>>::empty(),
{
}

} // verus!
