//! Factories of agents by name.

use super::message::PubSubError;
use crate::string_map::StringMap;
use crate::text::{cat3, holds_text};
use vstd::prelude::*;

verus! {

/// Factories of agents by name.
pub struct GlobalAgentRegistry<F> {
    agents: StringMap<F>,
}

impl<F> View for GlobalAgentRegistry<F> {
    type V = Map<Seq<char>, F>;

    closed spec fn view(&self) -> Map<Seq<char>, F> {
        self.agents@
    }
}

impl<F> GlobalAgentRegistry<F> {
    /// A registry without factories.
    pub fn new() -> (r: Self)
        ensures
            r@ == Map::<Seq<char>, F>::empty(),
    {
        GlobalAgentRegistry { agents: StringMap::new() }
    }

    /// Adds a factory under a name that is not taken.
    pub fn register(&mut self, name: String, factory: F) -> (r: Result<(), PubSubError>)
        ensures
            r is Ok <==> !old(self)@.contains_key(name@),
            r is Ok ==> final(self)@ == old(self)@.insert(name@, factory),
            r matches Err(e) ==> final(self)@ == old(self)@ && (e matches PubSubError::ExecutionError(s) && s@ == "Agent '"@
                + name@ + "' already registered"@),
    {
        if self.agents.contains_key(name.as_str()) {
            return Err(PubSubError::ExecutionError(cat3("Agent '", name.as_str(), "' already registered")));
        }
        self.agents.insert(name, factory);
        Ok(())
    }

    /// The factory called `name`.
    pub fn get_factory(&self, name: &str) -> (r: Option<&F>)
        ensures
            r is Some <==> self@.contains_key(name@),
            r matches Some(f) ==> *f == self@[name@],
    {
        self.agents.get(name)
    }

    /// The names of all factories.
    pub fn list_agents(&self) -> (r: Vec<String>)
        ensures
            forall|k: Seq<char>| #[trigger] holds_text(r@, k) <==> self@.contains_key(k),
            r@.len() == self@.dom().len(),
    {
        let n: usize = self.agents.len();
        self.agents.keys()
    }

    /// An agent from the factory called `name`.
    pub fn create_agent<A>(&self, name: &str) -> (r: Result<A, PubSubError>) where F: Fn() -> A
        requires
            self@.contains_key(name@) ==> call_requires(self@[name@], ()),
        ensures
            r is Ok <==> self@.contains_key(name@),
            r matches Ok(a) ==> call_ensures(self@[name@], (), a),
            r matches Err(e) ==> (e matches PubSubError::AgentNotFound(s) && s@ == "Agent factory '"@ + name@
                + "' not found"@),
    {
        match self.agents.get(name) {
            Some(factory) => Ok(factory()),
            None => Err(PubSubError::AgentNotFound(cat3("Agent factory '", name, "' not found"))),
        }
    }
}

/// A factory is had under the name under which it was registered; a name is taken once.
pub proof fn factories_are_had_by_name<F>(
    a: &mut GlobalAgentRegistry<F>,
    name: String,
    factory: F,
    r: Result<(), PubSubError>,
    b: &GlobalAgentRegistry<F>,
    key: &str,
    s: Option<&F>,
)
    requires
        call_ensures(GlobalAgentRegistry::<F>::register, (a, name, factory), r),
        call_ensures(GlobalAgentRegistry::<F>::get_factory, (b, key), s),
    ensures
        old(a)@.contains_key(name@) ==> (r matches Err(PubSubError::ExecutionError(t)) && t@ == "Agent '"@ + name@
            + "' already registered"@) && final(a)@ == old(a)@,
        !old(a)@.contains_key(name@) ==> r is Ok,
        r is Ok && b@ == final(a)@ && key@ == name@ ==> s == Some(&factory),
        b@ == final(a)@ && key@ != name@ ==> (s is Some <==> old(a)@.contains_key(key@)),
{
}

/// An agent is made by the factory of its name, and there is none without.
pub proof fn agents_are_made_by_name<F: Fn() -> A, A>(g: &GlobalAgentRegistry<F>, name: &str, r: Result<A, PubSubError>)
    requires
        call_ensures(GlobalAgentRegistry::<F>::create_agent::<A>, (g, name), r),
    ensures
        r is Ok <==> g@.contains_key(name@),
        r matches Ok(a) ==> call_ensures(g@[name@], (), a),
        !g@.contains_key(name@) ==> (r matches Err(PubSubError::AgentNotFound(s)) && s@ == "Agent factory '"@ + name@
            + "' not found"@),
{
}

} // verus!
