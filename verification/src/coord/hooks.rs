//! What is asked for commands when something happens.

use super::types::{ExecutionEvent, ExecutorCommand};
use crate::text::owned;
use vstd::prelude::*;

verus! {

/// What a hook is given. `D` is data of the application.
pub struct HookContext<D> {
    pub run_id: String,
    pub dag_name: String,
    pub app_data: Option<D>,
}

impl<D> HookContext<D> {
    /// The context of a run, without data of the application.
    pub fn new(run_id: &str, dag_name: &str) -> (r: Self)
        ensures
            r.run_id@ == run_id@,
            r.dag_name@ == dag_name@,
            r.app_data is None,
    {
        HookContext { run_id: owned(run_id), dag_name: owned(dag_name), app_data: None }
    }

    /// Sets the data of the application.
    pub fn with_app_data(self, data: D) -> (r: Self)
        ensures
            r == (HookContext { app_data: Some(data), ..self }),
    {
        HookContext { app_data: Some(data), ..self }
    }
}

/// The commands of several hooks, in the order of the hooks.
pub open spec fn gathered(answers: Seq<Vec<ExecutorCommand>>) -> Seq<ExecutorCommand>
    decreases answers.len(),
{
    if answers.len() == 0 {
        Seq::empty()
    } else {
        gathered(answers.drop_last()) + answers.last()@
    }
}

/// Several hooks as one: the commands of all, in the order of the hooks.
pub fn gather(answers: Vec<Vec<ExecutorCommand>>) -> (r: Vec<ExecutorCommand>)
    ensures
        r@ == gathered(answers@),
{
    let ghost all = answers@;
    let mut rest: Vec<Vec<ExecutorCommand>> = answers;
    let mut r: Vec<ExecutorCommand> = Vec::new();
    let ghost mut i: int = 0;
    proof {
        assert(all.take(0) =~= Seq::<Vec<ExecutorCommand>>::empty());
        assert(all.skip(0) =~= all);
    }
    while rest.len() > 0
        invariant
            0 <= i <= all.len(),
            rest@ == all.skip(i),
            r@ == gathered(all.take(i)),
        decreases rest.len(),
    {
        proof {
            assert(all.take(i + 1).drop_last() =~= all.take(i));
            assert(all.take(i + 1).last() == rest@[0]);
            assert(all.skip(i + 1) =~= rest@.remove(0));
        }
        let mut answer: Vec<ExecutorCommand> = rest.remove(0);
        r.append(&mut answer);
        proof {
            i = i + 1;
        }
    }
    proof {
        assert(all.take(i) =~= all);
    }
    r
}

/// A hook that tells what happened and asks for nothing.
pub struct LoggingHook;

impl LoggingHook {
    /// Asks for nothing.
    pub fn handle(&self, event: &ExecutionEvent) -> (r: Vec<ExecutorCommand>)
        ensures
            r@.len() == 0,
    {
        Vec::new()
    }
}

proof fn lemma_gathered(answers: Seq<Vec<ExecutorCommand>>)
    ensures
        gathered(answers) == answers.map_values(|v: Vec<ExecutorCommand>| v@).flatten_alt(),
    decreases answers.len(),
{
    let each = answers.map_values(|v: Vec<ExecutorCommand>| v@);
    if answers.len() > 0 {
        lemma_gathered(answers.drop_last());
        assert(each.drop_last() =~= answers.drop_last().map_values(|v: Vec<ExecutorCommand>| v@));
    }
}

/// What several hooks ask for is what each asks for, one after the other.
pub proof fn all_hooks_are_heard(answers: Vec<Vec<ExecutorCommand>>, r: Vec<ExecutorCommand>)
    requires
        call_ensures(gather, (answers,), r),
    ensures
        r@ == answers@.map_values(|v: Vec<ExecutorCommand>| v@).flatten(),
{
    lemma_gathered(answers@);
    answers@.map_values(|v: Vec<ExecutorCommand>| v@).lemma_flatten_and_flatten_alt_are_equivalent();
}

} // verus!
