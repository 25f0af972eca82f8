//! Events that a running workflow emits.

use crate::clock::utc_millis;
use crate::text::{clone_opt, owned};
use crate::value::Value;
use vstd::prelude::*;

verus! {

/// What happened.
#[derive(Debug)]
pub enum RuntimeEvent {
    StepPlanned { step_id: String, action: String, dependencies: Vec<String> },
    StepStarted { step_id: String, action: String },
    StepCompleted { step_id: String, success: bool, duration_ms: u64 },
    LlmToken { step_id: String, token: String },
    ToolInvoked { step_id: String, tool_name: String, args: Value },
    BranchStateUpdated { branch_id: String, status: String, reason: Option<String> },
}

/// An event with the circumstances in which it was emitted.
#[derive(Debug)]
pub struct RuntimeEventEnvelope {
    pub version: u32,
    pub sequence: u64,
    pub run_id: String,
    pub timestamp: u64,
    pub event: RuntimeEvent,
}

/// The version of the envelopes that the library makes.
pub const ENVELOPE_VERSION: u32 = 2;

/// The number that comes after `n`; after the highest comes 0 again.
pub open spec fn following(n: u64) -> int {
    if n == u64::MAX {
        0
    } else {
        n + 1
    }
}

/// Takes the next number of a sequence; after the highest comes 0 again.
pub fn next_sequence(counter: &mut u64) -> (r: u64)
    ensures
        r == *old(counter),
        *final(counter) == following(*old(counter)),
{
    let r: u64 = *counter;
    if r == u64::MAX {
        *counter = 0;
    } else {
        *counter = r + 1;
    }
    r
}

/// Whether `numbers` are what calls of [`next_sequence`] give one after the other, where
/// `counters` is the counter before each of them and after the last.
pub open spec fn successive(counters: Seq<u64>, numbers: Seq<u64>) -> bool {
    &&& counters.len() == numbers.len() + 1
    &&& forall|i: int| 0 <= i < numbers.len() ==> taken_at(counters, numbers, i)
}

/// The call at `i` gave the counter, and counted it up.
pub open spec fn taken_at(counters: Seq<u64>, numbers: Seq<u64>, i: int) -> bool {
    numbers[i] == counters[i] && counters[i + 1] == following(counters[i])
}

/// A call takes a number and leaves the counter as [`successive`] says.
pub proof fn call_is_successive(counters: Seq<u64>, numbers: Seq<u64>, number: u64, after: u64)
    requires
        successive(counters, numbers),
        number == counters.last(),
        after == following(counters.last()),
    ensures
        successive(counters.push(after), numbers.push(number)),
{
    let c = counters.push(after);
    let n = numbers.push(number);
    assert forall|i: int| 0 <= i < n.len() implies taken_at(c, n, i) by {
        if i < numbers.len() {
            assert(taken_at(counters, numbers, i));
        }
    }
}

/// The first number is the one at which the counter stands, and a call right after one that
/// gave `n` gives `n + 1`: as long as the counter does not come back to 0, the call at `i`
/// gives the first number and `i`. With a counter that starts at 0, that is how many calls were
/// made before.
pub proof fn numbers_leave_no_gap(counters: Seq<u64>, numbers: Seq<u64>, i: int)
    requires
        successive(counters, numbers),
        0 <= i < numbers.len(),
        counters[0] + i <= u64::MAX,
    ensures
        numbers[i] == counters[0] + i,
{
    lemma_counter(counters, numbers, i);
    assert(taken_at(counters, numbers, i));
}

/// No number is given twice within as many calls as there are numbers.
pub proof fn numbers_do_not_repeat(counters: Seq<u64>, numbers: Seq<u64>, i: int, j: int)
    requires
        successive(counters, numbers),
        0 <= i < j < numbers.len(),
        j - i <= u64::MAX,
    ensures
        numbers[i] != numbers[j],
{
    lemma_counter_from(counters, numbers, i, j);
    assert(taken_at(counters, numbers, i));
    assert(taken_at(counters, numbers, j));
}

proof fn lemma_counter(counters: Seq<u64>, numbers: Seq<u64>, i: int)
    requires
        successive(counters, numbers),
        0 <= i <= numbers.len(),
        counters[0] + i <= u64::MAX,
    ensures
        counters[i] == counters[0] + i,
    decreases i,
{
    if i > 0 {
        lemma_counter(counters, numbers, i - 1);
        assert(taken_at(counters, numbers, i - 1));
    }
}

/// The counter after `j - i` calls: it went round once at most.
proof fn lemma_counter_from(counters: Seq<u64>, numbers: Seq<u64>, i: int, j: int)
    requires
        successive(counters, numbers),
        0 <= i <= j <= numbers.len(),
        j - i <= u64::MAX,
    ensures
        counters[j] == (if counters[i] + (j - i) <= u64::MAX {
            counters[i] + (j - i)
        } else {
            counters[i] + (j - i) - u64::MAX - 1
        }),
    decreases j - i,
{
    if j > i {
        lemma_counter_from(counters, numbers, i, j - 1);
        assert(taken_at(counters, numbers, j - 1));
    }
}

/// The milliseconds since the Unix epoch, of a clock that says `millis` milliseconds; 0 where
/// it stands before the epoch.
pub fn epoch_millis(millis: i64) -> (r: u64)
    ensures
        r == (if millis < 0 {
            0
        } else {
            millis as int
        }),
{
    if millis < 0 {
        0
    } else {
        millis as u64
    }
}

/// The milliseconds since the Unix epoch by the machine's clock.
pub fn now_ms() -> (r: u64)
    ensures
        r <= i64::MAX,
{
    epoch_millis(utc_millis())
}

/// The event that the branch `branch_id` has the status `status`.
pub fn branch_event(
    sequence: u64,
    timestamp: u64,
    branch_id: &str,
    status: &str,
    reason: &Option<String>,
) -> (r: RuntimeEventEnvelope)
    ensures
        r.version == ENVELOPE_VERSION,
        r.sequence == sequence,
        r.run_id@ == branch_id@,
        r.timestamp == timestamp,
        r.event is BranchStateUpdated,
        r.event->BranchStateUpdated_branch_id@ == branch_id@,
        r.event->BranchStateUpdated_status@ == status@,
        r.event->BranchStateUpdated_reason == *reason,
{
    RuntimeEventEnvelope {
        version: ENVELOPE_VERSION,
        sequence,
        run_id: owned(branch_id),
        timestamp,
        event: RuntimeEvent::BranchStateUpdated {
            branch_id: owned(branch_id),
            status: owned(status),
            reason: clone_opt(reason),
        },
    }
}

/// Collects events.
pub struct BufferingEventSink {
    events: Vec<RuntimeEventEnvelope>,
}

impl View for BufferingEventSink {
    type V = Seq<RuntimeEventEnvelope>;

    closed spec fn view(&self) -> Seq<RuntimeEventEnvelope> {
        self.events@
    }
}

impl BufferingEventSink {
    /// No events yet.
    pub fn new() -> (r: Self)
        ensures
            r@ == Seq::<RuntimeEventEnvelope>::empty(),
    {
        BufferingEventSink { events: Vec::new() }
    }

    /// Keeps `envelope` behind those that came before.
    pub fn emit(&mut self, envelope: RuntimeEventEnvelope)
        ensures
            final(self)@ == old(self)@.push(envelope),
    {
        self.events.push(envelope);
    }

    /// The events so far, in order.
    pub fn get_events(&self) -> (r: &Vec<RuntimeEventEnvelope>)
        ensures
            r@ == self@,
    {
        &self.events
    }

    /// Forgets the events so far.
    pub fn clear(&mut self)
        ensures
            final(self)@ == Seq::<RuntimeEventEnvelope>::empty(),
    {
        self.events.clear();
    }
}

/// Numbers are taken one after the other: each call gives the number at which the counter stands
/// and counts it up by one; after the highest comes 0.
pub proof fn numbers_are_taken_in_order(a: &mut u64, b: &mut u64, ra: u64, rb: u64)
    requires
        call_ensures(next_sequence, (a,), ra),
        call_ensures(next_sequence, (b,), rb),
    ensures
        ra == *old(a),
        ra < u64::MAX ==> *final(a) == ra + 1,
        ra == u64::MAX ==> *final(a) == 0,
        *old(b) == *final(a) && ra < u64::MAX ==> rb == ra + 1,
{
}

/// The event that a branch changed is of the second version and tells its number, its time, the
/// branch, what it is now and why.
pub proof fn branch_events_tell_the_branch(
    sequence: u64,
    timestamp: u64,
    branch: &str,
    status: &str,
    why: &Option<String>,
    r: RuntimeEventEnvelope,
)
    requires
        call_ensures(branch_event, (sequence, timestamp, branch, status, why), r),
    ensures
        r.version == 2 && r.sequence == sequence && r.timestamp == timestamp && r.run_id@ == branch@,
        r.event matches RuntimeEvent::BranchStateUpdated { branch_id, status: s, reason } && branch_id@ == branch@ && s@
            == status@ && reason == *why,
{
}

/// Events are given back in the order in which they came.
pub proof fn events_are_kept_in_order(s: &mut BufferingEventSink, e: RuntimeEventEnvelope)
    requires
        call_ensures(BufferingEventSink::emit, (s, e), ()),
    ensures
        final(s)@.len() == old(s)@.len() + 1 && final(s)@.last() == e,
        forall|i: int| 0 <= i < old(s)@.len() ==> #[trigger] final(s)@[i] == old(s)@[i],
{
}

} // verus!
