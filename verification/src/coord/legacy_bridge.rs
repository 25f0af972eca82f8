//! Actions of the kind that changes the executor, behind the interface of those that do not.

use super::action::{NodeCtx, NodeOutput};
use super::registry::ActionRegistry;
use crate::dag_flow::cache::Cache;
use crate::dag_flow::function_action::{
    lemma_with_values_rest, object_members, store_inputs, stored_inputs_are_read, with_values,
};
use crate::string_map::StringMap;
use vstd::prelude::*;

verus! {

/// An action under a name. It is not run; what it is given is returned.
pub struct LegacyActionWrapper<A> {
    pub name: String,
    pub legacy_action: A,
}

impl<A> LegacyActionWrapper<A> {
    /// An action under a name.
    pub fn new(name: String, legacy_action: A) -> (r: Self)
        ensures
            r == (LegacyActionWrapper { name, legacy_action }),
    {
        LegacyActionWrapper { name, legacy_action }
    }

    /// Stores the inputs in the cache and returns them.
    pub fn execute<D>(&self, ctx: &NodeCtx<D>, cache: &mut Cache) -> (r: NodeOutput)
        ensures
            final(cache)@ == with_values(old(cache)@, ctx.node_id@, object_members(ctx.inputs@)),
            r.success,
            r.outputs is Some && r.outputs->0@ == ctx.inputs@,
            r.metadata is None,
    {
        store_inputs(cache, ctx.node_id.as_str(), &ctx.inputs);
        NodeOutput::success(ctx.inputs.clone())
    }
}

/// Actions by name, each behind the other interface.
pub open spec fn wrapped<A>(m: Map<Seq<char>, A>, w: Map<Seq<char>, LegacyActionWrapper<A>>) -> bool {
    &&& w.dom() == m.dom()
    &&& forall|k: Seq<char>| #[trigger] w.contains_key(k) ==> w[k].name@ == k && w[k].legacy_action == m[k]
}

/// Puts actions behind the other interface.
pub fn convert_legacy_registry<A>(legacy: StringMap<A>) -> (r: ActionRegistry<LegacyActionWrapper<A>>)
    ensures
        wrapped(legacy@, r@),
{
    let ghost all = legacy@;
    let mut rest: StringMap<A> = legacy;
    let keys = rest.keys();
    let mut r: ActionRegistry<LegacyActionWrapper<A>> = ActionRegistry::new();
    let mut i: usize = 0;
    proof {
        use_type_invariant(&rest);
    }
    while i < keys.len()
        invariant
            i <= keys@.len(),
            forall|k: Seq<char>| #[trigger] all.contains_key(k) <==> crate::text::holds_text(keys@, k),
            forall|k: Seq<char>| #[trigger]
                r@.contains_key(k) <==> exists|j: int| 0 <= j < i && (#[trigger] keys@[j])@ == k,
            forall|k: Seq<char>| #[trigger] r@.contains_key(k) ==> r@[k].name@ == k && r@[k].legacy_action == all[k],
            forall|k: Seq<char>| #[trigger] rest@.contains_key(k) <==> all.contains_key(k) && !r@.contains_key(k),
            forall|k: Seq<char>| #[trigger] rest@.contains_key(k) ==> rest@[k] == all[k],
        decreases keys.len() - i,
    {
        let ghost before = r@;
        let ghost key = keys@[i as int]@;
        proof {
            assert(crate::text::holds_text(keys@, key)) by {
                assert(keys@[i as int]@ == key);
            }
            assert(all.contains_key(key));
        }
        match rest.remove(keys[i].as_str()) {
            Some(action) => {
                r.register(keys[i].clone(), LegacyActionWrapper::new(keys[i].clone(), action));
            },
            None => {},
        }
        proof {
            assert forall|k: Seq<char>| #[trigger] r@.contains_key(k) <==> exists|j: int|
                0 <= j < i + 1 && (#[trigger] keys@[j])@ == k by {
                if r@.contains_key(k) && k != key {
                    assert(before.contains_key(k));
                }
                if exists|j: int| 0 <= j < i + 1 && (#[trigger] keys@[j])@ == k {
                    let j = choose|j: int| 0 <= j < i + 1 && (#[trigger] keys@[j])@ == k;
                    if j < i {
                        assert(before.contains_key(k));
                    }
                }
                if k == key {
                    assert(keys@[i as int]@ == k);
                }
            }
        }
        i = i + 1;
    }
    proof {
        assert forall|k: Seq<char>| r@.dom().contains(k) <==> all.dom().contains(k) by {
            assert(r@.contains_key(k) <==> crate::text::holds_text(keys@, k));
            assert(all.contains_key(k) <==> crate::text::holds_text(keys@, k));
        }
        assert(r@.dom() =~= all.dom());
    }
    r
}

/// An action that is not run returns its inputs, and stores each of them under its node; the
/// other nodes' values stay.
pub proof fn inputs_are_stored_and_returned<A, D>(
    w: &LegacyActionWrapper<A>,
    ctx: &NodeCtx<D>,
    cache: &mut Cache,
    r: NodeOutput,
    i: int,
    other: Seq<char>,
)
    requires
        call_ensures(LegacyActionWrapper::<A>::execute::<D>, (w, ctx, cache), r),
    ensures
        r.success && r.metadata is None && r.outputs is Some && r.outputs->0@ == ctx.inputs@,
        ctx.inputs@ is Object && 0 <= i < ctx.inputs@->Object_0.len() && (forall|j: int|
            i < j < ctx.inputs@->Object_0.len() ==> (#[trigger] ctx.inputs@->Object_0[j]).0 != ctx.inputs@->Object_0[i].0)
            ==> final(cache)@.contains_key(ctx.node_id@) && final(cache)@[ctx.node_id@].contains_key(
            ctx.inputs@->Object_0[i].0,
        ) && final(cache)@[ctx.node_id@][ctx.inputs@->Object_0[i].0] == ctx.inputs@->Object_0[i].1,
        !(ctx.inputs@ is Object) ==> final(cache)@ == old(cache)@,
        other != ctx.node_id@ ==> (final(cache)@.contains_key(other) <==> old(cache)@.contains_key(other))
            && final(cache)@[other] == old(cache)@[other],
{
    if ctx.inputs@ is Object && 0 <= i < ctx.inputs@->Object_0.len() && (forall|j: int|
        i < j < ctx.inputs@->Object_0.len() ==> (#[trigger] ctx.inputs@->Object_0[j]).0 != ctx.inputs@->Object_0[i].0) {
        stored_inputs_are_read(old(cache)@, ctx.node_id@, ctx.inputs@->Object_0, i);
    }
    if other != ctx.node_id@ {
        lemma_with_values_rest(old(cache)@, ctx.node_id@, object_members(ctx.inputs@), other);
    }
}

/// Every action is found under its own name, and there are no others.
pub proof fn actions_keep_their_names<A>(legacy: StringMap<A>, r: ActionRegistry<LegacyActionWrapper<A>>, name: Seq<char>)
    requires
        call_ensures(convert_legacy_registry::<A>, (legacy,), r),
    ensures
        r@.contains_key(name) <==> legacy@.contains_key(name),
        legacy@.contains_key(name) ==> r@[name].name@ == name && r@[name].legacy_action == legacy@[name],
{
    assert(r@.dom().contains(name) == legacy@.dom().contains(name));
}

} // verus!
