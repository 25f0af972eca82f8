//! Branches of a workflow, which can be paused, resumed and cancelled.

use super::events::now_ms;
use crate::string_map::{as_map, distinct_keys, StringMap};
use crate::text::clone_opt;
use vstd::prelude::*;

verus! {

/// Whether a branch runs.
#[derive(Debug, Clone, Copy, PartialEq, Eq, Structural)]
pub enum BranchStatus {
    Running,
    Paused,
    Cancelled,
    Completed,
}

/// The state of a branch.
#[derive(Debug)]
pub struct BranchState {
    pub status: BranchStatus,
    /// Why the branch was paused or cancelled.
    pub reason: Option<String>,
    /// When the branch was last paused, in milliseconds.
    pub paused_at: Option<u64>,
    /// When the branch was last resumed, in milliseconds.
    pub resumed_at: Option<u64>,
}

impl Clone for BranchState {
    fn clone(&self) -> (r: Self)
        ensures
            r == *self,
    {
        BranchState {
            status: self.status,
            reason: clone_opt(&self.reason),
            paused_at: self.paused_at,
            resumed_at: self.resumed_at,
        }
    }
}

/// The state of a branch that runs and was never paused.
pub open spec fn running_state() -> BranchState {
    BranchState { status: BranchStatus::Running, reason: None, paused_at: None, resumed_at: None }
}

impl BranchState {
    /// A branch that runs.
    pub fn new() -> (r: Self)
        ensures
            r == running_state(),
    {
        BranchState { status: BranchStatus::Running, reason: None, paused_at: None, resumed_at: None }
    }

    /// A branch that runs.
    pub fn running() -> (r: Self)
        ensures
            r == running_state(),
    {
        BranchState::new()
    }

    /// A branch that was paused at `now`.
    pub fn paused_at(reason: Option<String>, now: u64) -> (r: Self)
        ensures
            r == (BranchState { status: BranchStatus::Paused, reason, paused_at: Some(now), resumed_at: None }),
    {
        BranchState { status: BranchStatus::Paused, reason, paused_at: Some(now), resumed_at: None }
    }

    /// A branch that is paused now.
    pub fn paused(reason: Option<String>) -> (r: Self)
        ensures
            r.paused_at is Some,
            r == (BranchState {
                status: BranchStatus::Paused,
                reason,
                paused_at: r.paused_at,
                resumed_at: None,
            }),
    {
        BranchState::paused_at(reason, now_ms())
    }

    /// A branch that was cancelled.
    pub fn cancelled(reason: Option<String>) -> (r: Self)
        ensures
            r == (BranchState { status: BranchStatus::Cancelled, reason, paused_at: None, resumed_at: None }),
    {
        BranchState { status: BranchStatus::Cancelled, reason, paused_at: None, resumed_at: None }
    }
}

/// The states of all branches.
pub struct BranchRegistry {
    branches: StringMap<BranchState>,
}

impl View for BranchRegistry {
    type V = Map<Seq<char>, BranchState>;

    closed spec fn view(&self) -> Map<Seq<char>, BranchState> {
        self.branches@
    }
}

/// The branches after `id`, where it is known, got the state `state`.
pub open spec fn with_branch(m: Map<Seq<char>, BranchState>, id: Seq<char>, state: BranchState) -> Map<Seq<char>, BranchState> {
    if m.contains_key(id) {
        m.insert(id, state)
    } else {
        m
    }
}

/// A branch paused at `now` for `reason`.
pub open spec fn paused_state(s: BranchState, reason: Option<String>, now: u64) -> BranchState {
    BranchState { status: BranchStatus::Paused, reason, paused_at: Some(now), resumed_at: s.resumed_at }
}

/// A branch resumed at `now`: one that was not paused stays as it is.
pub open spec fn resumed_state(s: BranchState, now: u64) -> BranchState {
    if s.status == BranchStatus::Paused {
        BranchState {
            status: BranchStatus::Running,
            reason: s.reason,
            paused_at: s.paused_at,
            resumed_at: Some(now),
        }
    } else {
        s
    }
}

/// A branch cancelled for `reason`.
pub open spec fn cancelled_state(s: BranchState, reason: Option<String>) -> BranchState {
    BranchState {
        status: BranchStatus::Cancelled,
        reason,
        paused_at: s.paused_at,
        resumed_at: s.resumed_at,
    }
}

/// A branch that has come to its end.
pub open spec fn completed_state(s: BranchState) -> BranchState {
    BranchState {
        status: BranchStatus::Completed,
        reason: s.reason,
        paused_at: s.paused_at,
        resumed_at: s.resumed_at,
    }
}

/// Whether a branch has come to its end or was cancelled.
pub open spec fn is_finished(s: BranchState) -> bool {
    s.status == BranchStatus::Completed || s.status == BranchStatus::Cancelled
}

impl BranchRegistry {
    /// No branches yet.
    pub fn new() -> (r: Self)
        ensures
            r@ == Map::<Seq<char>, BranchState>::empty(),
    {
        BranchRegistry { branches: StringMap::new() }
    }

    /// Adds a branch that runs; a branch that had the id is replaced.
    pub fn register_branch(&mut self, branch_id: String)
        ensures
            final(self)@ == old(self)@.insert(branch_id@, running_state()),
    {
        self.branches.insert(branch_id, BranchState::running());
    }

    fn set(&mut self, branch_id: &str, state: BranchState)
        ensures
            final(self)@ == old(self)@.insert(branch_id@, state),
    {
        self.branches.insert(crate::text::owned(branch_id), state);
    }

    /// Pauses a branch at the time `now`.
    pub fn pause_branch_at(&mut self, branch_id: &str, reason: Option<String>, now: u64)
        ensures
            final(self)@ == with_branch(
                old(self)@,
                branch_id@,
                paused_state(old(self)@[branch_id@], reason, now),
            ),
    {
        match self.branches.get(branch_id) {
            Some(s) => {
                let resumed_at = s.resumed_at;
                self.set(
                    branch_id,
                    BranchState { status: BranchStatus::Paused, reason, paused_at: Some(now), resumed_at },
                );
            },
            None => {},
        }
    }

    /// Pauses a branch now.
    pub fn pause_branch(&mut self, branch_id: &str, reason: Option<String>)
        ensures
            exists|now: u64|
                final(self)@ == with_branch(
                    old(self)@,
                    branch_id@,
                    #[trigger] paused_state(old(self)@[branch_id@], reason, now),
                ),
    {
        let now: u64 = now_ms();
        self.pause_branch_at(branch_id, reason, now);
    }

    /// Resumes a paused branch at the time `now`.
    pub fn resume_branch_at(&mut self, branch_id: &str, now: u64)
        ensures
            final(self)@ == with_branch(old(self)@, branch_id@, resumed_state(old(self)@[branch_id@], now)),
    {
        match self.branches.get(branch_id) {
            Some(s) => {
                if s.status == BranchStatus::Paused {
                    let reason = clone_opt(&s.reason);
                    let paused_at = s.paused_at;
                    self.set(
                        branch_id,
                        BranchState { status: BranchStatus::Running, reason, paused_at, resumed_at: Some(now) },
                    );
                } else {
                    proof {
                        assert(self@.insert(branch_id@, self@[branch_id@]) =~= self@);
                    }
                }
            },
            None => {},
        }
    }

    /// Resumes a paused branch now.
    pub fn resume_branch(&mut self, branch_id: &str)
        ensures
            exists|now: u64|
                final(self)@ == with_branch(old(self)@, branch_id@, #[trigger] resumed_state(old(self)@[branch_id@], now)),
    {
        let now: u64 = now_ms();
        self.resume_branch_at(branch_id, now);
    }

    /// Cancels a branch.
    pub fn cancel_branch(&mut self, branch_id: &str, reason: Option<String>)
        ensures
            final(self)@ == with_branch(old(self)@, branch_id@, cancelled_state(old(self)@[branch_id@], reason)),
    {
        match self.branches.get(branch_id) {
            Some(s) => {
                let paused_at = s.paused_at;
                let resumed_at = s.resumed_at;
                self.set(branch_id, BranchState { status: BranchStatus::Cancelled, reason, paused_at, resumed_at });
            },
            None => {},
        }
    }

    /// Marks a branch as come to its end.
    pub fn complete_branch(&mut self, branch_id: &str)
        ensures
            final(self)@ == with_branch(old(self)@, branch_id@, completed_state(old(self)@[branch_id@])),
    {
        match self.branches.get(branch_id) {
            Some(s) => {
                let reason = clone_opt(&s.reason);
                let paused_at = s.paused_at;
                let resumed_at = s.resumed_at;
                self.set(branch_id, BranchState { status: BranchStatus::Completed, reason, paused_at, resumed_at });
            },
            None => {},
        }
    }

    /// The status of a branch.
    pub open spec fn status_of(&self, id: Seq<char>) -> Option<BranchStatus> {
        if self@.contains_key(id) {
            Some(self@[id].status)
        } else {
            None
        }
    }

    /// The status of a branch.
    pub fn get_status(&self, branch_id: &str) -> (r: Option<BranchStatus>)
        ensures
            r == self.status_of(branch_id@),
    {
        match self.branches.get(branch_id) {
            Some(s) => Some(s.status),
            None => None,
        }
    }

    /// The state of a branch.
    pub fn get_state(&self, branch_id: &str) -> (r: Option<BranchState>)
        ensures
            r == (if self@.contains_key(branch_id@) {
                Some(self@[branch_id@])
            } else {
                None
            }),
    {
        match self.branches.get(branch_id) {
            Some(s) => Some(s.clone()),
            None => None,
        }
    }

    /// Whether a branch is paused.
    pub fn is_paused(&self, branch_id: &str) -> (r: bool)
        ensures
            r == (self.status_of(branch_id@) == Some(BranchStatus::Paused)),
    {
        match self.get_status(branch_id) {
            Some(s) => s == BranchStatus::Paused,
            None => false,
        }
    }

    /// Whether a branch is cancelled.
    pub fn is_cancelled(&self, branch_id: &str) -> (r: bool)
        ensures
            r == (self.status_of(branch_id@) == Some(BranchStatus::Cancelled)),
    {
        match self.get_status(branch_id) {
            Some(s) => s == BranchStatus::Cancelled,
            None => false,
        }
    }

    /// Whether a branch runs.
    pub fn is_running(&self, branch_id: &str) -> (r: bool)
        ensures
            r == (self.status_of(branch_id@) == Some(BranchStatus::Running)),
    {
        match self.get_status(branch_id) {
            Some(s) => s == BranchStatus::Running,
            None => false,
        }
    }

    /// All branches with their states.
    pub fn list_branches(&self) -> (r: Vec<(String, BranchState)>)
        ensures
            distinct_keys(r@),
            as_map(r@) == self@,
    {
        let mut r: Vec<(String, BranchState)> = Vec::new();
        let n: usize = self.branches.len();
        let mut i: usize = 0;
        while i < n
            invariant
                i <= n,
                n == self.branches.pairs().len(),
                r@ == self.branches.pairs().take(i as int),
            decreases n - i,
        {
            let key = self.branches.key_at(i).clone();
            let state = self.branches.value_at(i).clone();
            r.push((key, state));
            proof {
                assert(r@ =~= self.branches.pairs().take(i + 1));
            }
            i = i + 1;
        }
        proof {
            use_type_invariant(&self.branches);
            assert(r@ =~= self.branches.pairs());
        }
        r
    }

    /// Forgets the branches that have come to their end or were cancelled.
    pub fn cleanup_finished(&mut self)
        ensures
            final(self)@ == old(self)@.remove_keys(
                old(self)@.dom().filter(|k: Seq<char>| is_finished(old(self)@[k])),
            ),
    {
        let keys = self.branches.keys();
        let ghost before = self@;
        let mut i: usize = 0;
        while i < keys.len()
            invariant
                i <= keys.len(),
                before == old(self)@,
                forall|k: Seq<char>| crate::text::holds_text(keys@, k) <==> before.contains_key(k),
                forall|k: Seq<char>| #[trigger] self@.contains_key(k) ==> before.contains_key(k) && self@[k] == before[k],
                forall|k: Seq<char>| #[trigger]
                    before.contains_key(k) && !is_finished(before[k]) ==> self@.contains_key(k),
                forall|j: int| 0 <= j < i && is_finished(before[(#[trigger] keys@[j])@]) ==> !self@.contains_key(keys@[j]@),
            decreases keys.len() - i,
        {
            let key = keys[i].as_str();
            proof {
                assert(crate::text::holds_text(keys@, keys@[i as int]@));
            }
            let drop_it: bool = match self.branches.get(key) {
                Some(s) => s.status == BranchStatus::Completed || s.status == BranchStatus::Cancelled,
                None => false,
            };
            let ghost mid = self@;
            if drop_it {
                self.branches.remove(key);
                proof {
                    assert(self@ == mid.remove(key@));
                    assert forall|k: Seq<char>| #[trigger] self@.contains_key(k) implies before.contains_key(k) && self@[k]
                        == before[k] by {
                        assert(mid.contains_key(k));
                    }
                }
            }
            i = i + 1;
        }
        proof {
            let gone = before.dom().filter(|k: Seq<char>| is_finished(before[k]));
            assert forall|k: Seq<char>| self@.contains_key(k) <==> before.remove_keys(gone).contains_key(k) by {
                if before.contains_key(k) && is_finished(before[k]) {
                    assert(crate::text::holds_text(keys@, k));
                    let j = choose|j: int| 0 <= j < keys@.len() && (#[trigger] keys@[j])@ == k;
                    assert(!self@.contains_key(keys@[j]@));
                }
            }
            assert(self@ =~= before.remove_keys(gone));
        }
    }
}

impl Default for BranchRegistry {
    fn default() -> (r: Self)
        ensures
            r@ == Map::<Seq<char>, BranchState>::empty(),
    {
        BranchRegistry::new()
    }
}

/// A running branch that is paused and then resumed runs again.
pub proof fn pause_then_resume_runs(s: BranchState, reason: Option<String>, t1: u64, t2: u64)
    ensures
        resumed_state(paused_state(s, reason, t1), t2).status == BranchStatus::Running,
        resumed_state(paused_state(s, reason, t1), t2).paused_at == Some(t1),
        resumed_state(paused_state(s, reason, t1), t2).resumed_at == Some(t2),
{
}

/// A cancelled or completed branch is not resumed.
pub proof fn finished_stays_finished(s: BranchState, now: u64)
    requires
        is_finished(s),
    ensures
        resumed_state(s, now) == s,
{
}

/// A branch that is known and is paused waits with the reason and the time, and other branches
/// stay as they are.
pub proof fn paused_branch_waits(b: &mut BranchRegistry, id: &str, reason: Option<String>, now: u64)
    requires
        call_ensures(BranchRegistry::pause_branch_at, (b, id, reason, now), ()),
    ensures
        old(b)@.contains_key(id@) ==> final(b)@.contains_key(id@) && final(b)@[id@].status is Paused && final(b)@[id@].reason
            == reason && final(b)@[id@].paused_at == Some(now) && final(b)@[id@].resumed_at == old(b)@[id@].resumed_at,
        !old(b)@.contains_key(id@) ==> final(b)@ == old(b)@,
        forall|k: Seq<char>|
            k != id@ ==> (#[trigger] final(b)@.contains_key(k) <==> old(b)@.contains_key(k)) && final(b)@[k] == old(b)@[k],
{
}

/// Only a branch that is paused is resumed.
pub proof fn only_paused_branch_is_resumed(b: &mut BranchRegistry, id: &str, now: u64)
    requires
        call_ensures(BranchRegistry::resume_branch_at, (b, id, now), ()),
    ensures
        old(b)@.contains_key(id@) && old(b)@[id@].status is Paused ==> final(b)@[id@].status is Running && final(b)@[id@].resumed_at == Some(now) && final(b)@[id@].paused_at == old(b)@[id@].paused_at,
        old(b)@.contains_key(id@) && !(old(b)@[id@].status is Paused) ==> final(b)@[id@] == old(b)@[id@],
        final(b)@.contains_key(id@) <==> old(b)@.contains_key(id@),
        forall|k: Seq<char>|
            k != id@ ==> (#[trigger] final(b)@.contains_key(k) <==> old(b)@.contains_key(k)) && final(b)@[k] == old(b)@[k],
{
}

/// A branch that is cancelled or comes to its end says so, and is forgotten when finished
/// branches are; others are not.
pub proof fn finished_branches_are_forgotten(
    a: &mut BranchRegistry,
    id: &str,
    reason: Option<String>,
    b: &mut BranchRegistry,
    c: &mut BranchRegistry,
    k: Seq<char>,
)
    requires
        call_ensures(BranchRegistry::cancel_branch, (a, id, reason), ()),
        call_ensures(BranchRegistry::complete_branch, (b, id), ()),
        call_ensures(BranchRegistry::cleanup_finished, (c,), ()),
    ensures
        old(a)@.contains_key(id@) ==> final(a)@[id@].status is Cancelled && final(a)@[id@].reason == reason,
        old(b)@.contains_key(id@) ==> final(b)@[id@].status is Completed && final(b)@[id@].reason == old(b)@[id@].reason,
        k != id@ ==> (final(a)@.contains_key(k) <==> old(a)@.contains_key(k)) && final(a)@[k] == old(a)@[k],
        k != id@ ==> (final(b)@.contains_key(k) <==> old(b)@.contains_key(k)) && final(b)@[k] == old(b)@[k],
        final(c)@.contains_key(k) <==> old(c)@.contains_key(k) && !(old(c)@[k].status is Cancelled) && !(
        old(c)@[k].status is Completed),
        final(c)@.contains_key(k) ==> final(c)@[k] == old(c)@[k],
{
}

/// A branch that is added runs, and its status is what is asked for.
pub proof fn added_branch_runs(
    a: &mut BranchRegistry,
    id: String,
    b: &BranchRegistry,
    other: &str,
    status: Option<BranchStatus>,
    paused: bool,
    cancelled: bool,
    running: bool,
)
    requires
        call_ensures(BranchRegistry::register_branch, (a, id), ()),
        call_ensures(BranchRegistry::get_status, (b, other), status),
        call_ensures(BranchRegistry::is_paused, (b, other), paused),
        call_ensures(BranchRegistry::is_cancelled, (b, other), cancelled),
        call_ensures(BranchRegistry::is_running, (b, other), running),
    ensures
        *b == *final(a) && other@ == id@ ==> status == Some(BranchStatus::Running) && running && !paused && !cancelled,
        status is Some <==> b@.contains_key(other@),
        status matches Some(s) ==> s == b@[other@].status,
        paused <==> b@.contains_key(other@) && b@[other@].status is Paused,
        cancelled <==> b@.contains_key(other@) && b@[other@].status is Cancelled,
        running <==> b@.contains_key(other@) && b@[other@].status is Running,
{
}

} // verus!
