//! The actions that nodes can run, by name.

use crate::string_map::StringMap;
use crate::text::holds_text;
use vstd::prelude::*;

verus! {

/// The actions that nodes can run, by name.
pub struct ActionRegistry<A> {
    actions: StringMap<A>,
}

impl<A> View for ActionRegistry<A> {
    type V = Map<Seq<char>, A>;

    closed spec fn view(&self) -> Map<Seq<char>, A> {
        self.actions@
    }
}

impl<A> ActionRegistry<A> {
    /// The registry without actions.
    pub fn new() -> (r: Self)
        ensures
            r@ == Map::<Seq<char>, A>::empty(),
    {
        ActionRegistry { actions: StringMap::new() }
    }

    /// Registers `action` under `name`; an action that had the name is replaced.
    pub fn register(&mut self, name: String, action: A)
        ensures
            final(self)@ == old(self)@.insert(name@, action),
    {
        self.actions.insert(name, action);
    }

    /// The action called `name`.
    pub fn get(&self, name: &str) -> (r: Option<&A>)
        ensures
            r matches Some(a) ==> self@.contains_key(name@) && *a == self@[name@],
            r is Some <==> self@.contains_key(name@),
    {
        self.actions.get(name)
    }

    /// Whether an action is called `name`.
    pub fn contains(&self, name: &str) -> (r: bool)
        ensures
            r == self@.contains_key(name@),
    {
        self.actions.contains_key(name)
    }

    /// The names of all actions.
    pub fn list(&self) -> (r: Vec<String>)
        ensures
            forall|k: Seq<char>| holds_text(r@, k) <==> self@.contains_key(k),
            r@.len() == self@.dom().len(),
    {
        let n: usize = self.actions.len();
        self.actions.keys()
    }
}

impl<A> Default for ActionRegistry<A> {
    fn default() -> (r: Self)
        ensures
            r@ == Map::<Seq<char>, A>::empty(),
    {
        ActionRegistry::new()
    }
}

} // verus!
