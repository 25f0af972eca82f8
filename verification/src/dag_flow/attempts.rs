//! Trying a node until it succeeds or may not be tried again.

use super::config::{calculate_retry_delay, retry_delay, RetryStrategy};
use super::node::{Node, NodeExecutionOutcome, OutcomeView};
use crate::text::{cat2, cat4, cat5, dec, decimal, owned, views};
use crate::value::{object, members_json, string, Json, Value};
use crate::text::{dec_signed, signed_decimal};
use vstd::prelude::*;

verus! {

/// What came of an attempt.
#[derive(Debug)]
pub enum AttemptResult {
    /// The action succeeded.
    Success,
    /// The action failed, with this message.
    Failed(String),
    /// The action took longer than allowed; the text says how long that is.
    TimedOut(String),
}

/// A node that is being tried.
#[derive(Debug)]
pub struct Attempts {
    /// What became of it so far.
    pub outcome: NodeExecutionOutcome,
    /// How often it may still be tried.
    pub retries_left: u8,
}

/// What an [`Attempts`] says.
#[verifier::ext_equal]
pub struct AttemptsView {
    pub outcome: OutcomeView,
    pub retries_left: u8,
}

impl View for Attempts {
    type V = AttemptsView;

    open spec fn view(&self) -> AttemptsView {
        AttemptsView { outcome: self.outcome@, retries_left: self.retries_left }
    }
}

/// An outcome without attempts.
pub open spec fn untried(id: Seq<char>, error: Option<Seq<char>>) -> OutcomeView {
    OutcomeView { node_id: id, success: false, retry_messages: Seq::empty(), final_error: error }
}

/// Says that the action of a node is not registered.
pub open spec fn unregistered_text(action: Seq<char>, id: Seq<char>) -> Seq<char> {
    "Action '"@ + action + "' not registered for node '"@ + id + "'"@
}

/// Says that a node failed after `n` attempts.
pub open spec fn exhausted_text(id: Seq<char>, n: nat) -> Seq<char> {
    "Node '"@ + id + "' failed after "@ + decimal(n) + " attempts"@
}

/// What happened when a node was to be tried.
pub enum Begun {
    /// It is not tried.
    Done(NodeExecutionOutcome),
    /// It is to be tried.
    Run(Attempts),
}

/// Starts on a node. A node whose action is not registered, and a node that may not be
/// tried at all, fails at once.
pub fn begin_attempts(node: &Node, registered: bool) -> (r: Begun)
    ensures
        r is Done <==> !registered || node.try_count == 0,
        r matches Begun::Done(o) ==> o@ == untried(
            node.id@,
            Some(
                if !registered {
                    unregistered_text(node.action@, node.id@)
                } else {
                    exhausted_text(node.id@, 0)
                },
            ),
        ),
        r matches Begun::Run(a) ==> a@ == (AttemptsView { outcome: untried(node.id@, None), retries_left: node.try_count })
            && in_progress(*node, a@),
{
    let mut outcome = NodeExecutionOutcome {
        node_id: node.id.clone(),
        success: false,
        retry_messages: Vec::new(),
        final_error: None,
    };
    proof {
        assert(views(outcome.retry_messages@) =~= Seq::<Seq<char>>::empty());
    }
    if !registered {
        outcome.final_error = Some(
            cat5("Action '", node.action.as_str(), "' not registered for node '", node.id.as_str(), "'"),
        );
        return Begun::Done(outcome);
    }
    if node.try_count == 0 {
        outcome.final_error = Some(cat5("Node '", node.id.as_str(), "' failed after ", dec(0).as_str(), " attempts"));
        return Begun::Done(outcome);
    }
    Begun::Run(Attempts { outcome, retries_left: node.try_count })
}

/// Each attempt so far failed and left a message.
pub open spec fn in_progress(node: Node, s: AttemptsView) -> bool {
    &&& 1 <= s.retries_left <= node.try_count
    &&& s.outcome.retry_messages.len() == node.try_count - s.retries_left
    &&& !s.outcome.success
    &&& s.outcome.final_error is None
}

/// The number of the attempt that is due, from 1.
pub open spec fn attempt_number(node: Node, s: AttemptsView) -> nat {
    (node.try_count - s.retries_left + 1) as nat
}

/// What went wrong in an attempt.
pub open spec fn attempt_error(result: AttemptResult) -> Seq<char> {
    match result {
        AttemptResult::Success => Seq::empty(),
        AttemptResult::Failed(e) => e@,
        AttemptResult::TimedOut(t) => "Timeout after "@ + t@,
    }
}

/// The final error when attempt `n` was the last: a timeout is named as one where
/// `name_timeout` says so.
pub open spec fn last_error(node: Node, n: nat, result: AttemptResult, name_timeout: bool) -> Seq<char> {
    if name_timeout && result is TimedOut {
        "Node '"@ + node.id@ + "' timed out after "@ + decimal(n) + " attempts"@
    } else {
        "Failed after "@ + decimal(n) + " attempts. Last error: "@ + attempt_error(result)
    }
}

/// The state after an attempt.
pub open spec fn attempted(node: Node, s: AttemptsView, result: AttemptResult, name_timeout: bool) -> AttemptsView {
    let n = attempt_number(node, s);
    match result {
        AttemptResult::Success => AttemptsView { outcome: OutcomeView { success: true, ..s.outcome }, ..s },
        _ => {
            let outcome = OutcomeView {
                retry_messages: s.outcome.retry_messages.push(
                    "Attempt "@ + decimal(n) + " failed: "@ + attempt_error(result),
                ),
                ..s.outcome
            };
            if node.onfailure && s.retries_left > 1 {
                AttemptsView { outcome, retries_left: (s.retries_left - 1) as u8 }
            } else {
                AttemptsView {
                    outcome: OutcomeView { final_error: Some(last_error(node, n, result, name_timeout)), ..outcome },
                    ..s
                }
            }
        },
    }
}

/// Whether a node is tried again after an attempt.
pub open spec fn tried_again(node: Node, s: AttemptsView, result: AttemptResult) -> bool {
    result !is Success && node.onfailure && s.retries_left > 1
}

impl Attempts {
    /// The number of the attempt that is due, from 1.
    pub fn number(&self, node: &Node) -> (r: u8)
        requires
            in_progress(*node, self@),
        ensures
            r == attempt_number(*node, self@),
    {
        node.try_count - self.retries_left + 1
    }

    /// Takes note of an attempt. Returns the delay in seconds before the next one, or
    /// `None` where there is none. `grown` is the exponential delay after the attempts so far.
    fn note(&mut self, node: &Node, result: AttemptResult, name_timeout: bool, strategy: &RetryStrategy, grown: u64) -> (r:
        Option<u64>)
        requires
            in_progress(*node, old(self)@),
        ensures
            final(self)@ == attempted(*node, old(self)@, result, name_timeout),
            r == (if tried_again(*node, old(self)@, result) {
                Some(retry_delay(*strategy, grown))
            } else {
                None
            }),
            r is Some ==> in_progress(*node, final(self)@) && final(self)@.retries_left < old(self)@.retries_left,
            final(self)@.outcome.retry_messages.len() <= node.try_count,
    {
        let n: u8 = self.number(node);
        let number = dec(n as u64);
        let error: String = match &result {
            AttemptResult::Success => {
                self.outcome.success = true;
                return None;
            },
            AttemptResult::Failed(e) => e.clone(),
            AttemptResult::TimedOut(t) => cat2("Timeout after ", t.as_str()),
        };
        let ghost before = self.outcome@;
        self.outcome.retry_messages.push(cat4("Attempt ", number.as_str(), " failed: ", error.as_str()));
        proof {
            assert(views(self.outcome.retry_messages@) =~= before.retry_messages.push(
                "Attempt "@ + decimal(n as nat) + " failed: "@ + error@,
            ));
        }
        if node.onfailure && self.retries_left > 1 {
            self.retries_left = self.retries_left - 1;
            return Some(calculate_retry_delay(strategy, grown));
        }
        let timed_out: bool = match &result {
            AttemptResult::TimedOut(_) => true,
            _ => false,
        };
        if name_timeout && timed_out {
            self.outcome.final_error = Some(
                cat5("Node '", node.id.as_str(), "' timed out after ", number.as_str(), " attempts"),
            );
        } else {
            self.outcome.final_error = Some(
                cat4("Failed after ", number.as_str(), " attempts. Last error: ", error.as_str()),
            );
        }
        None
    }

    /// Takes note of an attempt of a node that runs beside others. Returns the delay in
    /// seconds before the next attempt, or `None` where there is none.
    pub fn after_attempt(&mut self, node: &Node, result: AttemptResult, strategy: &RetryStrategy, grown: u64) -> (r: Option<
        u64,
    >)
        requires
            in_progress(*node, old(self)@),
        ensures
            final(self)@ == attempted(*node, old(self)@, result, true),
            r == (if tried_again(*node, old(self)@, result) {
                Some(retry_delay(*strategy, grown))
            } else {
                None
            }),
            r is Some ==> in_progress(*node, final(self)@) && final(self)@.retries_left < old(self)@.retries_left,
            final(self)@.outcome.retry_messages.len() <= node.try_count,
    {
        self.note(node, result, true, strategy, grown)
    }

    /// Takes note of an attempt of a node that runs alone. Returns the delay in seconds
    /// before the next attempt, or `None` where there is none.
    pub fn handle_attempt(&mut self, node: &Node, result: AttemptResult, strategy: &RetryStrategy, grown: u64) -> (r: Option<
        u64,
    >)
        requires
            in_progress(*node, old(self)@),
        ensures
            final(self)@ == attempted(*node, old(self)@, result, false),
            r == (if tried_again(*node, old(self)@, result) {
                Some(retry_delay(*strategy, grown))
            } else {
                None
            }),
            r is Some ==> in_progress(*node, final(self)@) && final(self)@.retries_left < old(self)@.retries_left,
            final(self)@.outcome.retry_messages.len() <= node.try_count,
    {
        self.note(node, result, false, strategy, grown)
    }
}

/// What becomes of a node whose attempts all end in `result`.
pub open spec fn all_end_in(node: Node, s: AttemptsView, result: AttemptResult, name_timeout: bool) -> AttemptsView
    decreases s.retries_left,
{
    let after = attempted(node, s, result, name_timeout);
    if tried_again(node, s, result) {
        all_end_in(node, after, result, name_timeout)
    } else {
        after
    }
}

/// A node that is tried again after failures and fails each time is tried exactly as often
/// as it may be; the final error counts the attempts.
pub proof fn failing_node_uses_all_attempts(node: Node, s: AttemptsView, result: AttemptResult, name_timeout: bool)
    requires
        in_progress(node, s),
        node.onfailure,
        result !is Success,
    ensures
        ({
            let end = all_end_in(node, s, result, name_timeout).outcome;
            &&& !end.success
            &&& end.retry_messages.len() == node.try_count
            &&& end.final_error == Some(last_error(node, node.try_count as nat, result, name_timeout))
        }),
    decreases s.retries_left,
{
    if s.retries_left > 1 {
        failing_node_uses_all_attempts(node, attempted(node, s, result, name_timeout), result, name_timeout);
    }
}

/// A node that is not to be tried again after a failure is tried once.
pub proof fn one_failure_is_final(node: Node, s: AttemptsView, result: AttemptResult, name_timeout: bool)
    requires
        in_progress(node, s),
        !node.onfailure,
        result !is Success,
    ensures
        !tried_again(node, s, result),
        attempted(node, s, result, name_timeout).outcome.final_error is Some,
{
}

/// A success ends the attempts and leaves no final error.
pub proof fn success_is_final(node: Node, s: AttemptsView, name_timeout: bool)
    requires
        in_progress(node, s),
    ensures
        !tried_again(node, s, AttemptResult::Success),
        attempted(node, s, AttemptResult::Success, name_timeout).outcome.success,
        attempted(node, s, AttemptResult::Success, name_timeout).outcome.final_error is None,
{
}

/// How long a node may run, in nanoseconds: its own timeout, but no longer than what is
/// left of the timeout of the workflow.
pub fn effective_timeout(node_timeout_secs: u64, timeout_secs: Option<u64>, elapsed_nanos: u128) -> (r: u128)
    ensures
        r == ({
            let all = (if timeout_secs is Some {
                timeout_secs->0
            } else {
                3600
            }) * 1_000_000_000;
            let left = if all > elapsed_nanos {
                all - elapsed_nanos
            } else {
                0
            };
            let own = node_timeout_secs * 1_000_000_000;
            if own < left {
                own
            } else {
                left
            }
        }),
{
    let secs: u64 = match timeout_secs {
        Some(t) => t,
        None => 3600,
    };
    let all: u128 = secs as u128 * 1_000_000_000;
    let left: u128 = if all > elapsed_nanos {
        all - elapsed_nanos
    } else {
        0
    };
    let own: u128 = node_timeout_secs as u128 * 1_000_000_000;
    if own < left {
        own
    } else {
        left
    }
}

/// An event of a running node.
#[derive(Debug)]
pub struct DagEvent {
    pub event_type: String,
    pub node_id: String,
    pub run_id: String,
    pub dag_name: String,
    /// When it happened, in milliseconds.
    pub timestamp: i64,
    pub data: Value,
}

fn event(kind: &str, node: &Node, run_id: &str, timestamp: i64, data: Value) -> (r: DagEvent)
    ensures
        r.event_type@ == kind@,
        r.node_id@ == node.id@,
        r.run_id@ == run_id@,
        r.dag_name@ == "unknown"@,
        r.timestamp == timestamp,
        r.data == data,
{
    DagEvent {
        event_type: owned(kind),
        node_id: node.id.clone(),
        run_id: owned(run_id),
        dag_name: owned("unknown"),
        timestamp,
        data,
    }
}

/// The event that a node starts.
pub fn step_started(node: &Node, run_id: &str, timestamp: i64) -> (r: DagEvent)
    ensures
        r.event_type@ == "StepStarted"@,
        r.node_id@ == node.id@,
        r.run_id@ == run_id@,
        r.dag_name@ == "unknown"@,
        r.timestamp == timestamp,
        r.data@ == Json::Object(seq![("action"@, Json::String(node.action@))]),
{
    let mut members: Vec<(String, Value)> = Vec::new();
    members.push((owned("action"), string(node.action.as_str())));
    proof {
        assert(members_json(members@) =~= seq![("action"@, Json::String(node.action@))]);
    }
    event("StepStarted", node, run_id, timestamp, object(members))
}

/// The event that a node succeeded.
pub fn step_completed(node: &Node, run_id: &str, timestamp: i64, duration_ms: i64, attempts: u8) -> (r: DagEvent)
    ensures
        r.event_type@ == "StepCompleted"@,
        r.node_id@ == node.id@,
        r.run_id@ == run_id@,
        r.dag_name@ == "unknown"@,
        r.timestamp == timestamp,
        r.data@ == Json::Object(
            seq![
                ("attempts"@, Json::Number(decimal(attempts as nat))),
                ("duration_ms"@, Json::Number(signed_decimal(duration_ms as int))),
            ],
        ),
{
    let mut members: Vec<(String, Value)> = Vec::new();
    members.push((owned("attempts"), Value::Number(dec(attempts as u64))));
    members.push((owned("duration_ms"), Value::Number(dec_signed(duration_ms))));
    proof {
        assert(members@[0].1@ == Json::Number(decimal(attempts as nat)));
        assert(members@[1].1@ == Json::Number(signed_decimal(duration_ms as int)));
        assert(members_json(members@) =~= seq![
            ("attempts"@, Json::Number(decimal(attempts as nat))),
            ("duration_ms"@, Json::Number(signed_decimal(duration_ms as int))),
        ]);
    }
    event("StepCompleted", node, run_id, timestamp, object(members))
}

/// The event that a node failed.
pub fn step_failed(node: &Node, run_id: &str, timestamp: i64, error: &str, duration_ms: i64, attempts: u8) -> (r: DagEvent)
    ensures
        r.event_type@ == "StepFailed"@,
        r.node_id@ == node.id@,
        r.run_id@ == run_id@,
        r.dag_name@ == "unknown"@,
        r.timestamp == timestamp,
        r.data@ == Json::Object(
            seq![
                ("attempts"@, Json::Number(decimal(attempts as nat))),
                ("duration_ms"@, Json::Number(signed_decimal(duration_ms as int))),
                ("error"@, Json::String(error@)),
            ],
        ),
{
    let mut members: Vec<(String, Value)> = Vec::new();
    members.push((owned("attempts"), Value::Number(dec(attempts as u64))));
    members.push((owned("duration_ms"), Value::Number(dec_signed(duration_ms))));
    members.push((owned("error"), string(error)));
    proof {
        assert(members@[0].1@ == Json::Number(decimal(attempts as nat)));
        assert(members@[1].1@ == Json::Number(signed_decimal(duration_ms as int)));
        assert(members_json(members@) =~= seq![
            ("attempts"@, Json::Number(decimal(attempts as nat))),
            ("duration_ms"@, Json::Number(signed_decimal(duration_ms as int))),
            ("error"@, Json::String(error@)),
        ]);
    }
    event("StepFailed", node, run_id, timestamp, object(members))
}

/// What is said of attempt `n` of a node, which did not succeed.
pub open spec fn failure_line(n: nat, result: AttemptResult) -> Seq<char> {
    match result {
        AttemptResult::Failed(e) => "Attempt "@ + decimal(n) + " failed: "@ + e@,
        AttemptResult::TimedOut(t) => "Attempt "@ + decimal(n) + " failed: "@ + ("Timeout after "@ + t@),
        AttemptResult::Success => Seq::empty(),
    }
}

/// A success ends the attempts; a failure of a node that may be tried again leads to the next
/// attempt, after the delay that the strategy asks for; any other failure is final.
pub proof fn attempts_go_on_after_failures(
    a: &mut Attempts,
    node: &Node,
    result: AttemptResult,
    strategy: &RetryStrategy,
    grown: u64,
    r: Option<u64>,
)
    requires
        call_ensures(Attempts::after_attempt, (a, node, result, strategy, grown), r),
        1 <= old(a).retries_left <= node.try_count,
    ensures
        result is Success ==> r is None && final(a)@.outcome.success && final(a)@.outcome.final_error == old(a)@.outcome.final_error && final(a)@.outcome.retry_messages == old(a)@.outcome.retry_messages,
        !(result is Success) ==> final(a)@.outcome.retry_messages == old(a)@.outcome.retry_messages.push(
            failure_line((node.try_count - old(a).retries_left + 1) as nat, result),
        ) && final(a)@.outcome.success == old(a)@.outcome.success,
        !(result is Success) && node.onfailure && old(a).retries_left > 1 ==> r is Some && final(a).retries_left == old(a).retries_left - 1 && final(a)@.outcome.final_error == old(a)@.outcome.final_error,
        !(result is Success) && !(node.onfailure && old(a).retries_left > 1) ==> r is None && final(a)@.outcome.final_error is Some,
        result is TimedOut && !(node.onfailure && old(a).retries_left > 1) ==> final(a)@.outcome.final_error == Some(
            "Node '"@ + node.id@ + "' timed out after "@ + decimal((node.try_count - old(a).retries_left + 1) as nat)
                + " attempts"@,
        ),
        (result matches AttemptResult::Failed(e) && !(node.onfailure && old(a).retries_left > 1) && final(a)@.outcome.final_error != Some(
            "Failed after "@ + decimal((node.try_count - old(a).retries_left + 1) as nat) + " attempts. Last error: "@ + e@,
        )) ==> false,
        r is Some ==> (*strategy matches RetryStrategy::Linear { delay_secs } ==> r == Some(delay_secs)),
        r is Some ==> (*strategy is Immediate ==> r == Some(0u64)),
        r is Some ==> (*strategy matches RetryStrategy::Exponential { initial_delay_secs, max_delay_secs, multiplier } ==> r
            == Some(
            if grown < max_delay_secs {
                grown
            } else {
                max_delay_secs
            },
        )),
        final(a)@.outcome.node_id == old(a)@.outcome.node_id,
{
}

/// A node that runs alone is tried as one that runs beside others; a last attempt that took too
/// long is told as the last error.
pub proof fn attempts_alone_go_on_after_failures(
    a: &mut Attempts,
    node: &Node,
    result: AttemptResult,
    strategy: &RetryStrategy,
    grown: u64,
    r: Option<u64>,
)
    requires
        call_ensures(Attempts::handle_attempt, (a, node, result, strategy, grown), r),
        1 <= old(a).retries_left <= node.try_count,
    ensures
        result is Success ==> r is None && final(a)@.outcome.success && final(a)@.outcome.retry_messages == old(a)@.outcome.retry_messages,
        !(result is Success) ==> final(a)@.outcome.retry_messages == old(a)@.outcome.retry_messages.push(
            failure_line((node.try_count - old(a).retries_left + 1) as nat, result),
        ),
        r is Some <==> !(result is Success) && node.onfailure && old(a).retries_left > 1,
        r is Some ==> final(a).retries_left == old(a).retries_left - 1 && final(a)@.outcome.final_error == old(a)@.outcome.final_error,
        (result matches AttemptResult::TimedOut(t) && !(node.onfailure && old(a).retries_left > 1) && final(a)@.outcome.final_error != Some(
            "Failed after "@ + decimal((node.try_count - old(a).retries_left + 1) as nat) + " attempts. Last error: "@ + (
            "Timeout after "@ + t@),
        )) ==> false,
        r is Some ==> (*strategy matches RetryStrategy::Linear { delay_secs } ==> r == Some(delay_secs)),
{
}

/// A node is tried only where its action is registered and it may be tried at all; it is then
/// due for its first attempt.
pub proof fn attempts_begin(node: &Node, registered: bool, r: Begun)
    requires
        call_ensures(begin_attempts, (node, registered), r),
    ensures
        !registered ==> (r matches Begun::Done(o) && !o.success && o.node_id@ == node.id@ && o@.final_error == Some(
            "Action '"@ + node.action@ + "' not registered for node '"@ + node.id@ + "'"@,
        )),
        registered && node.try_count == 0 ==> (r matches Begun::Done(o) && !o.success && o.node_id@ == node.id@
            && o@.final_error == Some("Node '"@ + node.id@ + "' failed after "@ + decimal(0) + " attempts"@)),
        registered && node.try_count > 0 ==> (r matches Begun::Run(a) && a.retries_left == node.try_count && a.outcome.node_id@
            == node.id@ && !a.outcome.success && a@.outcome.final_error is None && a@.outcome.retry_messages.len() == 0),
{
}

/// A node runs no longer than its own time and no longer than what is left of the workflow's,
/// and as long as the one or the other allows.
pub proof fn timeout_is_the_shorter(own: u64, all: Option<u64>, elapsed: u128, r: u128)
    requires
        call_ensures(effective_timeout, (own, all, elapsed), r),
    ensures
        r <= own * 1_000_000_000,
        all matches Some(t) ==> r + elapsed <= t * 1_000_000_000 || r == 0,
        all matches Some(t) ==> r == own * 1_000_000_000 || r + elapsed == t * 1_000_000_000 || elapsed > t * 1_000_000_000,
        all is None ==> r + elapsed <= 3_600_000_000_000 || r == 0,
        all is None ==> r == own * 1_000_000_000 || r + elapsed == 3_600_000_000_000 || elapsed > 3_600_000_000_000,
{
}

/// That a step ended is told with the node, the run, the time, the attempts, how long it took and,
/// where it failed, why.
pub proof fn ended_steps_are_told(
    node: &Node,
    run: &str,
    at: i64,
    took: i64,
    attempts: u8,
    error: &str,
    done: DagEvent,
    failed: DagEvent,
)
    requires
        call_ensures(step_completed, (node, run, at, took, attempts), done),
        call_ensures(step_failed, (node, run, at, error, took, attempts), failed),
    ensures
        done.event_type@ == "StepCompleted"@ && done.node_id@ == node.id@ && done.run_id@ == run@ && done.timestamp == at,
        failed.event_type@ == "StepFailed"@ && failed.node_id@ == node.id@ && failed.run_id@ == run@ && failed.timestamp == at,
        done.data@ is Object && done.data@->Object_0.len() == 2,
        done.data@->Object_0[0] == ("attempts"@, Json::Number(decimal(attempts as nat))),
        done.data@->Object_0[1].0 == "duration_ms"@ && (took >= 0 ==> done.data@->Object_0[1].1 == Json::Number(
            decimal(took as nat),
        )),
        failed.data@ is Object && failed.data@->Object_0.len() == 3,
        failed.data@->Object_0[0] == ("attempts"@, Json::Number(decimal(attempts as nat))),
        failed.data@->Object_0[2] == ("error"@, Json::String(error@)),
{
}

/// That a step starts is told with the node, the run, the time and the action.
pub proof fn started_steps_are_told(node: &Node, run: &str, at: i64, r: DagEvent)
    requires
        call_ensures(step_started, (node, run, at), r),
    ensures
        r.event_type@ == "StepStarted"@ && r.node_id@ == node.id@ && r.run_id@ == run@ && r.timestamp == at && r.dag_name@
            == "unknown"@,
        r.data@ == Json::Object(seq![("action"@, Json::String(node.action@))]),
{
}

} // verus!
