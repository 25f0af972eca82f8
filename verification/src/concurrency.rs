//! Tasks that several workers share: who may take which, and in which order locks are taken.

use crate::dash_table::DashTable;
use crate::errors::DaggerError;
use crate::limits::{count_up, counted_up};
use crate::text::{cat3, cat4, owned, same, views};
use vstd::prelude::*;

verus! {

/// The locks, in the order in which they are taken.
#[derive(Debug, Clone, Copy, PartialEq, Eq, PartialOrd, Ord, Structural)]
pub enum LockOrder {
    Config,
    Registry,
    Tasks,
    Cache,
    Channels,
    ExecutionTree,
}

impl LockOrder {
    /// Where the lock stands in the order.
    pub open spec fn rank(self) -> int {
        match self {
            LockOrder::Config => 0,
            LockOrder::Registry => 1,
            LockOrder::Tasks => 2,
            LockOrder::Cache => 3,
            LockOrder::Channels => 4,
            LockOrder::ExecutionTree => 5,
        }
    }

    /// Where the lock stands in the order.
    pub fn position(self) -> (r: u8)
        ensures
            r == self.rank(),
    {
        match self {
            LockOrder::Config => 0,
            LockOrder::Registry => 1,
            LockOrder::Tasks => 2,
            LockOrder::Cache => 3,
            LockOrder::Channels => 4,
            LockOrder::ExecutionTree => 5,
        }
    }

    /// What the lock is called.
    pub open spec fn text(self) -> Seq<char> {
        match self {
            LockOrder::Config => "Config"@,
            LockOrder::Registry => "Registry"@,
            LockOrder::Tasks => "Tasks"@,
            LockOrder::Cache => "Cache"@,
            LockOrder::Channels => "Channels"@,
            LockOrder::ExecutionTree => "ExecutionTree"@,
        }
    }

    /// What the lock is called.
    pub fn name(self) -> (r: &'static str)
        ensures
            r@ == self.text(),
    {
        match self {
            LockOrder::Config => "Config",
            LockOrder::Registry => "Registry",
            LockOrder::Tasks => "Tasks",
            LockOrder::Cache => "Cache",
            LockOrder::Channels => "Channels",
            LockOrder::ExecutionTree => "ExecutionTree",
        }
    }
}

/// Whether locks are held in their order, each once.
pub open spec fn in_order(locks: Seq<LockOrder>) -> bool {
    forall|i: int, j: int| 0 <= i < j < locks.len() ==> (#[trigger] locks[i]).rank() < (#[trigger] locks[j]).rank()
}

/// The locks without the first that is `lock`.
pub open spec fn released(locks: Seq<LockOrder>, lock: LockOrder) -> Seq<LockOrder>
    decreases locks.len(),
{
    if locks.len() == 0 {
        locks
    } else if locks[0] == lock {
        locks.drop_first()
    } else {
        seq![locks[0]] + released(locks.drop_first(), lock)
    }
}

/// Why a lock cannot be taken.
pub open spec fn order_text(lock: LockOrder, last: LockOrder) -> Seq<char> {
    "Lock ordering violation: trying to acquire "@ + lock.text() + " after "@ + last.text()
}

/// Keeps watch over the order of locks.
#[derive(Debug)]
pub struct LockManager {
    acquired_locks: Vec<LockOrder>,
}

impl View for LockManager {
    type V = Seq<LockOrder>;

    closed spec fn view(&self) -> Seq<LockOrder> {
        self.acquired_locks@
    }
}

impl LockManager {
    /// No lock is held.
    pub fn new() -> (r: Self)
        ensures
            r@ == Seq::<LockOrder>::empty(),
    {
        LockManager { acquired_locks: Vec::new() }
    }

    /// Checks that a lock stands behind those that are held.
    pub fn can_acquire(&self, lock_order: LockOrder) -> (r: Result<(), DaggerError>)
        ensures
            r is Ok <==> (self@.len() > 0 ==> self@.last().rank() < lock_order.rank()),
            r matches Err(e) ==> e.is_concurrency(order_text(lock_order, self@.last())),
    {
        let n: usize = self.acquired_locks.len();
        if n > 0 {
            let last: LockOrder = self.acquired_locks[n - 1];
            if lock_order.position() <= last.position() {
                return Err(
                    DaggerError::concurrency(
                        cat4(
                            "Lock ordering violation: trying to acquire ",
                            lock_order.name(),
                            " after ",
                            last.name(),
                        ).as_str(),
                    ),
                );
            }
        }
        Ok(())
    }

    /// Takes a lock, where it stands behind those that are held.
    pub fn acquire(&mut self, lock_order: LockOrder) -> (r: Result<(), DaggerError>)
        ensures
            r is Ok <==> (old(self)@.len() > 0 ==> old(self)@.last().rank() < lock_order.rank()),
            r is Ok ==> final(self)@ == old(self)@.push(lock_order),
            r matches Err(e) ==> final(self)@ == old(self)@ && e.is_concurrency(order_text(lock_order, old(self)@.last())),
            in_order(old(self)@) ==> in_order(final(self)@),
    {
        match self.can_acquire(lock_order) {
            Ok(()) => {
                self.acquired_locks.push(lock_order);
                proof {
                    if in_order(old(self)@) {
                        assert forall|i: int, j: int| 0 <= i < j < self@.len() implies (#[trigger] self@[i]).rank() < (
                        #[trigger] self@[j]).rank() by {
                            if j == self@.len() - 1 && i < j - 1 {
                                assert(old(self)@[i].rank() < old(self)@[j - 1].rank());
                            }
                        }
                    }
                }
                Ok(())
            },
            Err(e) => Err(e),
        }
    }

    /// Gives a lock back.
    pub fn release(&mut self, lock_order: LockOrder)
        ensures
            final(self)@ == released(old(self)@, lock_order),
            in_order(old(self)@) ==> in_order(final(self)@),
    {
        let ghost all = self@;
        let mut i: usize = 0;
        let n: usize = self.acquired_locks.len();
        proof {
            assert(all.skip(0) =~= all);
            assert(all.take(0) + released(all.skip(0), lock_order) =~= released(all, lock_order));
        }
        while i < n
            invariant
                i <= n,
                n == all.len(),
                all == old(self)@,
                self@ == all,
                released(all, lock_order) == all.take(i as int) + released(all.skip(i as int), lock_order),
            decreases n - i,
        {
            let ghost rest = all.skip(i as int);
            proof {
                assert(rest[0] == all[i as int]);
                assert(rest.drop_first() =~= all.skip(i + 1));
            }
            if self.acquired_locks[i] == lock_order {
                self.acquired_locks.remove(i);
                proof {
                    assert(self@ =~= all.take(i as int) + all.skip(i + 1));
                    lemma_released_in_order(all, lock_order);
                }
                return;
            }
            proof {
                assert(all.take(i as int) + (seq![all[i as int]] + released(all.skip(i + 1), lock_order)) =~= all.take(i + 1)
                    + released(all.skip(i + 1), lock_order));
            }
            i = i + 1;
        }
        proof {
            assert(all.skip(n as int) =~= Seq::<LockOrder>::empty());
            assert(all.take(n as int) =~= all);
            assert(all + Seq::<LockOrder>::empty() =~= all);
        }
    }
}

/// Giving locks back keeps the rest in order.
proof fn lemma_released_in_order(locks: Seq<LockOrder>, lock: LockOrder)
    ensures
        in_order(locks) ==> in_order(released(locks, lock)),
        forall|k: int| 0 <= k < released(locks, lock).len() ==> locks.contains(#[trigger] released(locks, lock)[k]),
    decreases locks.len(),
{
    if locks.len() > 0 {
        let rest = locks.drop_first();
        lemma_released_in_order(rest, lock);
        let out = released(locks, lock);
        assert forall|k: int| 0 <= k < out.len() implies locks.contains(#[trigger] out[k]) by {
            if locks[0] == lock {
                assert(out[k] == locks[k + 1]);
            } else if k == 0 {
                assert(out[0] == locks[0]);
            } else {
                assert(out[k] == released(rest, lock)[k - 1]);
                let j = choose|j: int| 0 <= j < rest.len() && rest[j] == out[k];
                assert(locks[j + 1] == out[k]);
            }
        }
        if in_order(locks) {
            assert(in_order(rest)) by {
                assert forall|i: int, j: int| 0 <= i < j < rest.len() implies (#[trigger] rest[i]).rank() < (#[trigger] rest[j]).rank() by {
                    assert(locks[i + 1].rank() < locks[j + 1].rank());
                }
            }
            assert forall|i: int, j: int| 0 <= i < j < out.len() implies (#[trigger] out[i]).rank() < (#[trigger] out[j]).rank() by {
                if locks[0] == lock {
                    assert(out[i] == rest[i] && out[j] == rest[j]);
                } else if i == 0 {
                    assert(out[j] == released(rest, lock)[j - 1]);
                    let k = choose|k: int| 0 <= k < rest.len() && rest[k] == out[j];
                    assert(locks[k + 1] == out[j]);
                    assert(locks[0].rank() < locks[k + 1].rank());
                } else {
                    assert(out[i] == released(rest, lock)[i - 1]);
                    assert(out[j] == released(rest, lock)[j - 1]);
                }
            }
        }
    }
}

/// What became of a task.
#[derive(Debug, Clone, Copy, PartialEq, Eq, Hash, Structural)]
pub enum TaskStatus {
    Pending,
    InProgress,
    Completed,
    Failed,
    Blocked,
    Accepted,
    Rejected,
}

/// The status with a number; a number that is none's stands for a failure.
pub open spec fn status_of(value: u8) -> TaskStatus {
    if value == 0 {
        TaskStatus::Pending
    } else if value == 1 {
        TaskStatus::InProgress
    } else if value == 2 {
        TaskStatus::Completed
    } else if value == 3 {
        TaskStatus::Failed
    } else if value == 4 {
        TaskStatus::Blocked
    } else if value == 5 {
        TaskStatus::Accepted
    } else if value == 6 {
        TaskStatus::Rejected
    } else {
        TaskStatus::Failed
    }
}

impl From<u8> for TaskStatus {
    fn from(value: u8) -> (r: Self) {
        if value == 0 {
            TaskStatus::Pending
        } else if value == 1 {
            TaskStatus::InProgress
        } else if value == 2 {
            TaskStatus::Completed
        } else if value == 3 {
            TaskStatus::Failed
        } else if value == 4 {
            TaskStatus::Blocked
        } else if value == 5 {
            TaskStatus::Accepted
        } else if value == 6 {
            TaskStatus::Rejected
        } else {
            TaskStatus::Failed
        }
    }
}

impl vstd::std_specs::convert::FromSpecImpl<u8> for TaskStatus {
    open spec fn obeys_from_spec() -> bool {
        true
    }

    open spec fn from_spec(value: u8) -> TaskStatus {
        status_of(value)
    }
}

impl TaskStatus {
    /// The number of the status.
    pub open spec fn number(self) -> u8 {
        match self {
            TaskStatus::Pending => 0,
            TaskStatus::InProgress => 1,
            TaskStatus::Completed => 2,
            TaskStatus::Failed => 3,
            TaskStatus::Blocked => 4,
            TaskStatus::Accepted => 5,
            TaskStatus::Rejected => 6,
        }
    }

    /// The number of the status.
    pub fn code(self) -> (r: u8)
        ensures
            r == self.number(),
    {
        match self {
            TaskStatus::Pending => 0,
            TaskStatus::InProgress => 1,
            TaskStatus::Completed => 2,
            TaskStatus::Failed => 3,
            TaskStatus::Blocked => 4,
            TaskStatus::Accepted => 5,
            TaskStatus::Rejected => 6,
        }
    }

    /// What the status is called.
    pub open spec fn text(self) -> Seq<char> {
        match self {
            TaskStatus::Pending => "Pending"@,
            TaskStatus::InProgress => "InProgress"@,
            TaskStatus::Completed => "Completed"@,
            TaskStatus::Failed => "Failed"@,
            TaskStatus::Blocked => "Blocked"@,
            TaskStatus::Accepted => "Accepted"@,
            TaskStatus::Rejected => "Rejected"@,
        }
    }

    /// What the status is called.
    pub fn name(self) -> (r: &'static str)
        ensures
            r@ == self.text(),
    {
        match self {
            TaskStatus::Pending => "Pending",
            TaskStatus::InProgress => "InProgress",
            TaskStatus::Completed => "Completed",
            TaskStatus::Failed => "Failed",
            TaskStatus::Blocked => "Blocked",
            TaskStatus::Accepted => "Accepted",
            TaskStatus::Rejected => "Rejected",
        }
    }

    /// Whether nothing more becomes of a task.
    pub open spec fn terminal(self) -> bool {
        self == TaskStatus::Completed || self == TaskStatus::Failed || self == TaskStatus::Rejected
    }
}

/// The number of a status leads back to it.
pub proof fn status_number_round_trips(s: TaskStatus)
    ensures
        status_of(s.number()) == s,
        s.number() < 7,
{
}

/// Every number leads to a status, and those above 6 to a failure.
pub proof fn unknown_number_is_failure(n: u8)
    requires
        n > 6,
    ensures
        status_of(n) == TaskStatus::Failed,
{
}

/// A task and what became of it. Times are in milliseconds since the Unix epoch.
#[derive(Debug)]
pub struct AtomicTaskState {
    pub id: String,
    pub status: TaskStatus,
    pub last_updated: u64,
    pub attempts: u32,
    pub agent: String,
    pub job_id: String,
}

impl Clone for AtomicTaskState {
    fn clone(&self) -> (r: Self)
        ensures
            r == *self,
    {
        AtomicTaskState {
            id: self.id.clone(),
            status: self.status,
            last_updated: self.last_updated,
            attempts: self.attempts,
            agent: self.agent.clone(),
            job_id: self.job_id.clone(),
        }
    }
}

impl AtomicTaskState {
    /// A task that nobody has taken.
    pub fn new(id: String, job_id: String, agent: String, now: u64) -> (r: Self)
        ensures
            r == (AtomicTaskState { id, status: TaskStatus::Pending, last_updated: now, attempts: 0, agent, job_id }),
    {
        AtomicTaskState { id, status: TaskStatus::Pending, last_updated: now, attempts: 0, agent, job_id }
    }

    /// Sets the status at `now`, where it is the expected one.
    pub fn compare_and_set_status(&mut self, expected: TaskStatus, new: TaskStatus, now: u64) -> (r: Result<
        TaskStatus,
        TaskStatus,
    >)
        ensures
            old(self).status == expected ==> r == Ok::<TaskStatus, TaskStatus>(new) && *final(self) == (AtomicTaskState {
                status: new,
                last_updated: now,
                ..*old(self)
            }),
            old(self).status != expected ==> r == Err::<TaskStatus, TaskStatus>(old(self).status) && *final(self)
                == *old(self),
    {
        if self.status == expected {
            self.status = new;
            self.last_updated = now;
            Ok(new)
        } else {
            Err(self.status)
        }
    }

    /// The status.
    pub fn get_status(&self) -> (r: TaskStatus)
        ensures
            r == self.status,
    {
        self.status
    }

    /// Sets the status at `now` and returns what it was.
    pub fn set_status(&mut self, status: TaskStatus, now: u64) -> (r: TaskStatus)
        ensures
            r == old(self).status,
            *final(self) == (AtomicTaskState { status, last_updated: now, ..*old(self) }),
    {
        let old_status: TaskStatus = self.status;
        self.status = status;
        self.last_updated = now;
        old_status
    }

    /// Counts an attempt and returns how many there were.
    pub fn increment_attempts(&mut self) -> (r: u32)
        requires
            old(self).attempts < u32::MAX,
        ensures
            r == old(self).attempts + 1,
            *final(self) == (AtomicTaskState { attempts: r, ..*old(self) }),
    {
        self.attempts = self.attempts + 1;
        self.attempts
    }

    /// How many attempts there were.
    pub fn get_attempts(&self) -> (r: u32)
        ensures
            r == self.attempts,
    {
        self.attempts
    }

    /// Notes a change at `now`.
    pub fn touch(&mut self, now: u64)
        ensures
            *final(self) == (AtomicTaskState { last_updated: now, ..*old(self) }),
    {
        self.last_updated = now;
    }

    /// When the task changed last.
    pub fn get_last_updated(&self) -> (r: u64)
        ensures
            r == self.last_updated,
    {
        self.last_updated
    }

    /// Whether nothing more becomes of the task.
    pub fn is_terminal(&self) -> (r: bool)
        ensures
            r == self.status.terminal(),
    {
        self.status == TaskStatus::Completed || self.status == TaskStatus::Failed || self.status == TaskStatus::Rejected
    }

    /// Whether the task can be taken.
    pub fn can_claim(&self) -> (r: bool)
        ensures
            r == (self.status == TaskStatus::Pending),
    {
        self.status == TaskStatus::Pending
    }

    /// Takes the task at `now`, where nobody has.
    pub fn try_claim(&mut self, now: u64) -> (r: bool)
        ensures
            r == (old(self).status == TaskStatus::Pending),
            r ==> *final(self) == (AtomicTaskState { status: TaskStatus::InProgress, last_updated: now, ..*old(self) }),
            !r ==> *final(self) == *old(self),
    {
        match self.compare_and_set_status(TaskStatus::Pending, TaskStatus::InProgress, now) {
            Ok(_) => true,
            Err(_) => false,
        }
    }
}

/// Whom to wake after a change.
#[derive(Debug, Clone, Copy, PartialEq, Eq, Structural)]
pub enum Notice {
    /// Those who wait for tasks.
    Ready,
    /// Those who wait for completions.
    Completed,
    /// Those who wait for failures.
    Failed,
}

/// Whom to wake when a task gets a status.
pub open spec fn notice_of(s: TaskStatus) -> Option<Notice> {
    match s {
        TaskStatus::Pending => Some(Notice::Ready),
        TaskStatus::Completed => Some(Notice::Completed),
        TaskStatus::Failed => Some(Notice::Failed),
        TaskStatus::Rejected => Some(Notice::Failed),
        _ => None,
    }
}

/// Leave to run a task.
#[derive(Debug)]
pub struct ExecutionPermit {
    pub number: usize,
}

/// Counts those who run and those who were woken.
#[derive(Debug)]
pub struct TaskNotificationSystem {
    pub permits: usize,
    pub notifications_sent: u64,
}

/// `n` more, on numbers of 64 bits, which go round.
pub open spec fn counted_by(a: u64, n: u64) -> u64 {
    (if a + n > u64::MAX {
        a + n - 0x1_0000_0000_0000_0000
    } else {
        a + n
    }) as u64
}

impl TaskNotificationSystem {
    /// So many may run at the same time.
    pub fn new(max_concurrent_tasks: usize) -> (r: Self)
        ensures
            r == (TaskNotificationSystem { permits: max_concurrent_tasks, notifications_sent: 0 }),
    {
        TaskNotificationSystem { permits: max_concurrent_tasks, notifications_sent: 0 }
    }

    /// Counts that somebody is woken, and says whom.
    pub fn notify(&mut self, notice: Notice) -> (r: Notice)
        ensures
            r == notice,
            *final(self) == (TaskNotificationSystem {
                notifications_sent: counted_up(old(self).notifications_sent),
                ..*old(self)
            }),
    {
        self.notifications_sent = count_up(self.notifications_sent);
        notice
    }

    /// A task is ready.
    pub fn notify_task_ready(&mut self) -> (r: Notice)
        ensures
            r == Notice::Ready,
            *final(self) == (TaskNotificationSystem {
                notifications_sent: counted_up(old(self).notifications_sent),
                ..*old(self)
            }),
    {
        self.notify(Notice::Ready)
    }

    /// Several tasks are ready.
    pub fn notify_tasks_ready(&mut self, count: usize) -> (r: Notice)
        ensures
            r == Notice::Ready,
            *final(self) == (TaskNotificationSystem {
                notifications_sent: counted_by(old(self).notifications_sent, count as u64),
                ..*old(self)
            }),
    {
        self.notifications_sent = self.notifications_sent.wrapping_add(count as u64);
        Notice::Ready
    }

    /// A task is completed.
    pub fn notify_task_completed(&mut self) -> (r: Notice)
        ensures
            r == Notice::Completed,
            *final(self) == (TaskNotificationSystem {
                notifications_sent: counted_up(old(self).notifications_sent),
                ..*old(self)
            }),
    {
        self.notify(Notice::Completed)
    }

    /// A task failed.
    pub fn notify_task_failed(&mut self) -> (r: Notice)
        ensures
            r == Notice::Failed,
            *final(self) == (TaskNotificationSystem {
                notifications_sent: counted_up(old(self).notifications_sent),
                ..*old(self)
            }),
    {
        self.notify(Notice::Failed)
    }

    /// Leave to run a task, where one more may.
    pub fn try_acquire_execution_permit(&mut self) -> (r: Option<ExecutionPermit>)
        ensures
            r is Some <==> old(self).permits > 0,
            r is Some ==> *final(self) == (TaskNotificationSystem { permits: (old(self).permits - 1) as usize, ..*old(self) }),
            r is None ==> *final(self) == *old(self),
    {
        if self.permits > 0 {
            let number: usize = self.permits;
            self.permits = number - 1;
            Some(ExecutionPermit { number })
        } else {
            None
        }
    }

    /// Takes leave back.
    pub fn release_execution_permit(&mut self, permit: ExecutionPermit)
        requires
            old(self).permits < usize::MAX,
        ensures
            *final(self) == (TaskNotificationSystem { permits: (old(self).permits + 1) as usize, ..*old(self) }),
    {
        self.permits = self.permits + 1;
    }

    /// How many more may run.
    pub fn available_permits(&self) -> (r: usize)
        ensures
            r == self.permits,
    {
        self.permits
    }

    /// How many were woken.
    pub fn get_notifications_sent(&self) -> (r: u64)
        ensures
            r == self.notifications_sent,
    {
        self.notifications_sent
    }
}

/// The ids of tasks by the number of their status; a status that no task ever had has no
/// list.
pub type StatusLists = Vec<Option<Vec<String>>>;

/// What the lists of ids say.
pub open spec fn list_views(lists: Seq<Option<Vec<String>>>) -> Seq<Option<Seq<Seq<char>>>> {
    Seq::new(
        lists.len(),
        |i: int|
            match lists[i] {
                Some(v) => Some(views(v@)),
                None => None,
            },
    )
}

/// A list of ids with one more, which starts a list that is not there.
pub open spec fn listed(l: Option<Seq<Seq<char>>>, id: Seq<char>) -> Option<Seq<Seq<char>>> {
    match l {
        Some(v) => Some(v.push(id)),
        None => Some(seq![id]),
    }
}

/// A list of ids without the first that is `id`.
pub open spec fn unlisted(v: Seq<Seq<char>>, id: Seq<char>) -> Seq<Seq<char>>
    decreases v.len(),
{
    if v.len() == 0 {
        v
    } else if v[0] == id {
        v.drop_first()
    } else {
        seq![v[0]] + unlisted(v.drop_first(), id)
    }
}

/// The lists after a task changed from one status to another.
pub open spec fn relisted(lists: Seq<Option<Seq<Seq<char>>>>, id: Seq<char>, before: u8, after: u8) -> Seq<Option<Seq<Seq<char>>>> {
    let taken = lists.update(
        before as int,
        match lists[before as int] {
            Some(v) => Some(unlisted(v, id)),
            None => None,
        },
    );
    taken.update(after as int, listed(taken[after as int], id))
}

/// What a table of lists of ids says.
pub open spec fn job_views(m: Map<Seq<char>, Vec<String>>) -> Map<Seq<char>, Seq<Seq<char>>> {
    m.map_values(|v: Vec<String>| views(v@))
}

/// The tasks of all jobs.
pub struct ConcurrentTaskRegistry {
    tasks: DashTable<AtomicTaskState>,
    tasks_by_job: DashTable<Vec<String>>,
    tasks_by_status: StatusLists,
    notification_system: TaskNotificationSystem,
    task_count: u64,
}

/// What a [`ConcurrentTaskRegistry`] says.
#[verifier::ext_equal]
pub struct RegistryView {
    pub tasks: Map<Seq<char>, AtomicTaskState>,
    pub by_job: Map<Seq<char>, Seq<Seq<char>>>,
    pub by_status: Seq<Option<Seq<Seq<char>>>>,
    pub notifications: TaskNotificationSystem,
    pub count: u64,
}

impl View for ConcurrentTaskRegistry {
    type V = RegistryView;

    closed spec fn view(&self) -> RegistryView {
        RegistryView {
            tasks: self.tasks@,
            by_job: job_views(self.tasks_by_job@),
            by_status: list_views(self.tasks_by_status@),
            notifications: self.notification_system,
            count: self.task_count,
        }
    }
}

/// The ids of `ids` whose tasks can be taken.
pub open spec fn claimable(tasks: Map<Seq<char>, AtomicTaskState>, ids: Seq<Seq<char>>) -> Seq<Seq<char>>
    decreases ids.len(),
{
    if ids.len() == 0 {
        Seq::empty()
    } else {
        let before = claimable(tasks, ids.drop_last());
        let id = ids.last();
        if tasks.contains_key(id) && tasks[id].status == TaskStatus::Pending {
            before.push(id)
        } else {
            before
        }
    }
}

/// The registry after somebody was woken.
pub open spec fn woken(n: TaskNotificationSystem, s: TaskStatus) -> TaskNotificationSystem {
    if notice_of(s) is Some {
        TaskNotificationSystem { notifications_sent: counted_up(n.notifications_sent), ..n }
    } else {
        n
    }
}

/// Why a status was not changed.
pub open spec fn mismatch_text(id: Seq<char>, expected: TaskStatus, actual: TaskStatus) -> Seq<char> {
    "Task "@ + id + " status update failed: expected "@ + expected.text() + ", actual "@ + actual.text()
}

/// Whether `e` says that there is no such task.
pub open spec fn is_unknown_task(e: DaggerError, id: Seq<char>) -> bool {
    e matches DaggerError::Task { task_id, message, status, agent } && task_id@ == id && message@ == "Task not found"@
        && status is None && agent is None
}

fn without_first(v: &mut Vec<String>, id: &str)
    ensures
        views(final(v)@) == unlisted(views(old(v)@), id@),
{
    let ghost all = views(v@);
    let n: usize = v.len();
    let mut i: usize = 0;
    proof {
        assert(all.skip(0) =~= all);
        assert(all.take(0) + unlisted(all.skip(0), id@) =~= unlisted(all, id@));
    }
    while i < n
        invariant
            i <= n,
            n == v@.len(),
            v@ == old(v)@,
            all == views(v@),
            unlisted(all, id@) == all.take(i as int) + unlisted(all.skip(i as int), id@),
        decreases n - i,
    {
        let ghost rest = all.skip(i as int);
        proof {
            assert(rest[0] == all[i as int]);
            assert(rest.drop_first() =~= all.skip(i + 1));
        }
        if same(v[i].as_str(), id) {
            v.remove(i);
            proof {
                assert(views(v@) =~= all.take(i as int) + all.skip(i + 1));
            }
            return;
        }
        proof {
            assert(all.take(i as int) + (seq![all[i as int]] + unlisted(all.skip(i + 1), id@)) =~= all.take(i + 1)
                + unlisted(all.skip(i + 1), id@));
        }
        i = i + 1;
    }
    proof {
        assert(all.skip(n as int) =~= Seq::<Seq<char>>::empty());
        assert(all.take(n as int) =~= all);
        assert(all + Seq::<Seq<char>>::empty() =~= all);
    }
}

fn list_more(lists: &mut StatusLists, at: u8, id: &str)
    requires
        at < old(lists)@.len(),
    ensures
        final(lists)@.len() == old(lists)@.len(),
        list_views(final(lists)@) == list_views(old(lists)@).update(
            at as int,
            listed(list_views(old(lists)@)[at as int], id@),
        ),
{
    let ghost before = list_views(lists@);
    let slot: Option<Vec<String>> = lists.remove(at as usize);
    let mut v: Vec<String> = match slot {
        Some(v) => v,
        None => Vec::new(),
    };
    let ghost was = views(v@);
    v.push(owned(id));
    proof {
        assert(views(v@) =~= was.push(id@));
        if before[at as int] is None {
            assert(was.push(id@) =~= seq![id@]);
        }
    }
    lists.insert(at as usize, Some(v));
    proof {
        assert(list_views(lists@) =~= before.update(at as int, listed(before[at as int], id@)));
    }
}

fn list_less(lists: &mut StatusLists, at: u8, id: &str)
    requires
        at < old(lists)@.len(),
    ensures
        final(lists)@.len() == old(lists)@.len(),
        list_views(final(lists)@) == list_views(old(lists)@).update(
            at as int,
            match list_views(old(lists)@)[at as int] {
                Some(v) => Some(unlisted(v, id@)),
                None => None,
            },
        ),
{
    let ghost before = list_views(lists@);
    let slot: Option<Vec<String>> = lists.remove(at as usize);
    let slot: Option<Vec<String>> = match slot {
        Some(v) => {
            let mut v: Vec<String> = v;
            without_first(&mut v, id);
            Some(v)
        },
        None => None,
    };
    lists.insert(at as usize, slot);
    proof {
        assert(list_views(lists@) =~= before.update(
            at as int,
            match before[at as int] {
                Some(v) => Some(unlisted(v, id@)),
                None => None,
            },
        ));
    }
}

impl ConcurrentTaskRegistry {
    /// There is a place for the list of each status.
    pub open spec fn wf(&self) -> bool {
        self@.by_status.len() == 7
    }

    /// A registry without tasks.
    pub fn new(max_concurrent_tasks: usize) -> (r: Self)
        ensures
            r.wf(),
            r@ == (RegistryView {
                tasks: Map::empty(),
                by_job: Map::empty(),
                by_status: Seq::new(7, |i: int| None),
                notifications: TaskNotificationSystem { permits: max_concurrent_tasks, notifications_sent: 0 },
                count: 0,
            }),
    {
        let mut lists: StatusLists = Vec::new();
        let mut i: usize = 0;
        while i < 7
            invariant
                i <= 7,
                lists@.len() == i,
                forall|j: int| 0 <= j < i ==> (#[trigger] lists@[j]) is None,
            decreases 7 - i,
        {
            lists.push(None);
            i = i + 1;
        }
        let r = ConcurrentTaskRegistry {
            tasks: DashTable::new(),
            tasks_by_job: DashTable::new(),
            tasks_by_status: lists,
            notification_system: TaskNotificationSystem::new(max_concurrent_tasks),
            task_count: 0,
        };
        proof {
            assert(r@.by_job =~= Map::<Seq<char>, Seq<Seq<char>>>::empty());
            assert(r@.by_status =~= Seq::new(7, |i: int| None::<Seq<Seq<char>>>));
        }
        r
    }

    /// Adds a task. Where one had its id, that is replaced and nothing more is done.
    pub fn add_task(&mut self, task: AtomicTaskState) -> (r: Result<Option<Notice>, DaggerError>)
        requires
            old(self).wf(),
        ensures
            final(self).wf(),
            r is Ok <==> !old(self)@.tasks.contains_key(task.id@),
            r matches Err(e) ==> e.is_validation("Task "@ + task.id@ + " already exists"@) && final(self)@ == (RegistryView {
                tasks: old(self)@.tasks.insert(task.id@, task),
                ..old(self)@
            }),
            r matches Ok(notice) ==> {
                let s = old(self)@;
                let pending = task.status == TaskStatus::Pending;
                &&& notice == (if pending {
                    Some(Notice::Ready)
                } else {
                    None
                })
                &&& final(self)@ == (RegistryView {
                    tasks: s.tasks.insert(task.id@, task),
                    by_job: s.by_job.insert(
                        task.job_id@,
                        if s.by_job.contains_key(task.job_id@) {
                            s.by_job[task.job_id@].push(task.id@)
                        } else {
                            seq![task.id@]
                        },
                    ),
                    by_status: s.by_status.update(
                        task.status.number() as int,
                        listed(s.by_status[task.status.number() as int], task.id@),
                    ),
                    notifications: if pending {
                        woken(s.notifications, TaskStatus::Pending)
                    } else {
                        s.notifications
                    },
                    count: counted_up(s.count),
                })
            },
    {
        let ghost before = self@;
        let id = task.id.clone();
        let job = task.job_id.clone();
        let status: TaskStatus = task.status;
        let ghost t = task;
        let known: Option<AtomicTaskState> = self.tasks.insert(task.id.clone(), task);
        if known.is_some() {
            return Err(DaggerError::validation(cat3("Task ", id.as_str(), " already exists").as_str()));
        }
        let ghost jobs = self.tasks_by_job@;
        let mut ids: Vec<String> = match self.tasks_by_job.remove(job.as_str()) {
            Some(v) => v,
            None => Vec::new(),
        };
        let ghost was = views(ids@);
        ids.push(id.clone());
        proof {
            assert(views(ids@) =~= was.push(id@));
            if !jobs.contains_key(job@) {
                assert(was.push(id@) =~= seq![id@]);
            }
        }
        self.tasks_by_job.insert(job, ids);
        proof {
            assert(self@.by_job =~= before.by_job.insert(
                t.job_id@,
                if before.by_job.contains_key(t.job_id@) {
                    before.by_job[t.job_id@].push(t.id@)
                } else {
                    seq![t.id@]
                },
            ));
        }
        list_more(&mut self.tasks_by_status, status.code(), id.as_str());
        self.task_count = count_up(self.task_count);
        if status == TaskStatus::Pending {
            Ok(Some(self.notification_system.notify_task_ready()))
        } else {
            Ok(None)
        }
    }

    /// The task called `task_id`.
    pub fn get_task(&self, task_id: &str) -> (r: Option<&AtomicTaskState>)
        ensures
            r is Some <==> self@.tasks.contains_key(task_id@),
            r matches Some(t) ==> *t == self@.tasks[task_id@],
    {
        self.tasks.get(task_id)
    }

    fn change(&mut self, task_id: &str, expected: TaskStatus, new: TaskStatus, now: u64) -> (r: Option<
        Result<TaskStatus, TaskStatus>,
    >)
        requires
            old(self).wf(),
        ensures
            final(self).wf(),
            r is None <==> !old(self)@.tasks.contains_key(task_id@),
            r is None ==> final(self)@ == old(self)@,
            r matches Some(x) ==> {
                let s = old(self)@;
                let t = s.tasks[task_id@];
                &&& t.status == expected ==> x == Ok::<TaskStatus, TaskStatus>(new) && final(self)@ == (RegistryView {
                    tasks: s.tasks.insert(task_id@, AtomicTaskState { status: new, last_updated: now, ..t }),
                    by_status: relisted(s.by_status, task_id@, expected.number(), new.number()),
                    ..s
                })
                &&& t.status != expected ==> x == Err::<TaskStatus, TaskStatus>(t.status) && final(self)@ == s
            },
    {
        let ghost before = self@;
        let mut task: AtomicTaskState = match self.tasks.remove(task_id) {
            Some(t) => t,
            None => {
                proof {
                    assert(self.tasks@ =~= before.tasks);
                }
                return None;
            },
        };
        let result = task.compare_and_set_status(expected, new, now);
        let ghost after = task;
        self.tasks.insert(owned(task_id), task);
        proof {
            assert(self.tasks@ =~= before.tasks.insert(task_id@, after));
            if result is Err {
                assert(self.tasks@ =~= before.tasks);
            }
        }
        if result.is_ok() {
            list_less(&mut self.tasks_by_status, expected.code(), task_id);
            list_more(&mut self.tasks_by_status, new.code(), task_id);
        }
        Some(result)
    }

    /// Changes the status of a task at `now`, where it is the expected one, and says whom to
    /// wake.
    pub fn update_task_status(&mut self, task_id: &str, expected: TaskStatus, new: TaskStatus, now: u64) -> (r: Result<
        (TaskStatus, Option<Notice>),
        DaggerError,
    >)
        requires
            old(self).wf(),
        ensures
            final(self).wf(),
            ({
                let s = old(self)@;
                let known = s.tasks.contains_key(task_id@);
                let t = s.tasks[task_id@];
                &&& r is Ok <==> known && t.status == expected
                &&& r matches Ok(x) ==> x.0 == new && x.1 == notice_of(new) && final(self)@ == (RegistryView {
                    tasks: s.tasks.insert(task_id@, AtomicTaskState { status: new, last_updated: now, ..t }),
                    by_status: relisted(s.by_status, task_id@, expected.number(), new.number()),
                    notifications: woken(s.notifications, new),
                    ..s
                })
                &&& r matches Err(e) ==> final(self)@ == s && if known {
                    e.is_concurrency(mismatch_text(task_id@, expected, t.status))
                } else {
                    is_unknown_task(e, task_id@)
                }
            }),
    {
        match self.change(task_id, expected, new, now) {
            None => Err(DaggerError::task(task_id, "Task not found")),
            Some(Err(actual)) => {
                let mut text = cat4("Task ", task_id, " status update failed: expected ", expected.name());
                text.append(", actual ");
                text.append(actual.name());
                Err(DaggerError::concurrency(text.as_str()))
            },
            Some(Ok(status)) => {
                let notice: Option<Notice> = match status {
                    TaskStatus::Pending => Some(self.notification_system.notify_task_ready()),
                    TaskStatus::Completed => Some(self.notification_system.notify_task_completed()),
                    TaskStatus::Failed => Some(self.notification_system.notify_task_failed()),
                    TaskStatus::Rejected => Some(self.notification_system.notify_task_failed()),
                    _ => None,
                };
                Ok((status, notice))
            },
        }
    }

    fn pick_claimable(&self, ids: &Vec<String>) -> (r: Vec<String>)
        ensures
            views(r@) == claimable(self@.tasks, views(ids@)),
    {
        let ghost all = views(ids@);
        let mut r: Vec<String> = Vec::new();
        let mut i: usize = 0;
        proof {
            assert(all.take(0) =~= Seq::<Seq<char>>::empty());
            assert(views(r@) =~= Seq::<Seq<char>>::empty());
        }
        while i < ids.len()
            invariant
                i <= ids@.len(),
                all == views(ids@),
                views(r@) == claimable(self@.tasks, all.take(i as int)),
            decreases ids.len() - i,
        {
            let ghost before = views(r@);
            proof {
                assert(all.take(i + 1).drop_last() =~= all.take(i as int));
                assert(all.take(i + 1).last() == ids@[i as int]@);
            }
            match self.tasks.get(ids[i].as_str()) {
                Some(t) => {
                    if t.can_claim() {
                        r.push(ids[i].clone());
                        proof {
                            assert(views(r@) =~= before.push(ids@[i as int]@));
                        }
                    }
                },
                None => {},
            }
            i = i + 1;
        }
        proof {
            assert(all.take(i as int) =~= all);
        }
        r
    }

    /// The ids of the tasks that can be taken.
    pub fn get_ready_tasks(&self) -> (r: Vec<String>)
        requires
            self.wf(),
        ensures
            views(r@) == (match self@.by_status[0] {
                Some(ids) => claimable(self@.tasks, ids),
                None => Seq::empty(),
            }),
    {
        match &self.tasks_by_status[0] {
            Some(ids) => self.pick_claimable(ids),
            None => {
                let r: Vec<String> = Vec::new();
                proof {
                    assert(views(r@) =~= Seq::<Seq<char>>::empty());
                }
                r
            },
        }
    }

    /// The ids of the tasks of a job that can be taken.
    pub fn get_ready_tasks_for_job(&self, job_id: &str) -> (r: Vec<String>)
        ensures
            views(r@) == (if self@.by_job.contains_key(job_id@) {
                claimable(self@.tasks, self@.by_job[job_id@])
            } else {
                Seq::empty()
            }),
    {
        match self.tasks_by_job.get(job_id) {
            Some(ids) => self.pick_claimable(ids),
            None => {
                let r: Vec<String> = Vec::new();
                proof {
                    assert(views(r@) =~= Seq::<Seq<char>>::empty());
                }
                r
            },
        }
    }

    /// Takes a task at `now`; returns whether nobody had.
    pub fn try_claim_task(&mut self, task_id: &str, now: u64) -> (r: Result<bool, DaggerError>)
        requires
            old(self).wf(),
        ensures
            final(self).wf(),
            ({
                let s = old(self)@;
                let t = s.tasks[task_id@];
                &&& r is Ok <==> s.tasks.contains_key(task_id@)
                &&& r matches Err(e) ==> final(self)@ == s && is_unknown_task(e, task_id@)
                &&& r matches Ok(claimed) ==> claimed == (t.status == TaskStatus::Pending) && final(self)@ == (if claimed {
                    RegistryView {
                        tasks: s.tasks.insert(
                            task_id@,
                            AtomicTaskState { status: TaskStatus::InProgress, last_updated: now, ..t },
                        ),
                        by_status: relisted(s.by_status, task_id@, 0, 1),
                        ..s
                    }
                } else {
                    s
                })
            }),
    {
        match self.change(task_id, TaskStatus::Pending, TaskStatus::InProgress, now) {
            None => Err(DaggerError::task(task_id, "Task not found")),
            Some(Ok(_)) => Ok(true),
            Some(Err(_)) => Ok(false),
        }
    }

    /// Who may run and who was woken.
    pub fn get_notification_system(&self) -> (r: &TaskNotificationSystem)
        ensures
            *r == self@.notifications,
    {
        &self.notification_system
    }

    /// How many tasks were added.
    pub fn task_count(&self) -> (r: u64)
        ensures
            r == self@.count,
    {
        self.task_count
    }

    /// How many tasks have each status, for the statuses that a task ever had.
    pub fn get_status_counts(&self) -> (r: Vec<(TaskStatus, usize)>)
        requires
            self.wf(),
        ensures
            r@ == counts_to(self@.by_status, 7),
    {
        let ghost lists = self@.by_status;
        let mut r: Vec<(TaskStatus, usize)> = Vec::new();
        let mut i: u8 = 0;
        while i < 7
            invariant
                i <= 7,
                self.wf(),
                lists == self@.by_status,
                r@ == counts_to(lists, i as int),
            decreases 7 - i,
        {
            match &self.tasks_by_status[i as usize] {
                Some(ids) => {
                    proof {
                        assert(lists[i as int] == Some(views(ids@)));
                    }
                    r.push((TaskStatus::from(i), ids.len()));
                },
                None => {},
            }
            i = i + 1;
        }
        r
    }
}

/// How many tasks have each of the first `n` statuses, for those that a task ever had.
pub open spec fn counts_to(lists: Seq<Option<Seq<Seq<char>>>>, n: int) -> Seq<(TaskStatus, usize)>
    decreases n,
{
    if n <= 0 {
        Seq::empty()
    } else {
        match lists[n - 1] {
            Some(ids) => counts_to(lists, n - 1).push((status_of((n - 1) as u8), ids.len() as usize)),
            None => counts_to(lists, n - 1),
        }
    }
}

/// A claim takes a task out of those that can be taken.
pub proof fn claimed_task_is_not_ready(tasks: Map<Seq<char>, AtomicTaskState>, ids: Seq<Seq<char>>, id: Seq<char>)
    requires
        tasks.contains_key(id) ==> tasks[id].status != TaskStatus::Pending,
    ensures
        !claimable(tasks, ids).contains(id),
    decreases ids.len(),
{
    if ids.len() > 0 {
        claimed_task_is_not_ready(tasks, ids.drop_last(), id);
        let all = claimable(tasks, ids);
        let before = claimable(tasks, ids.drop_last());
        if all.contains(id) {
            let k = choose|k: int| 0 <= k < all.len() && all[k] == id;
            if k < before.len() {
                assert(before[k] == id);
                assert(before.contains(id));
            }
        }
    }
}

/// Leave to use some of a resource.
#[derive(Debug)]
pub struct ResourcePermit {
    pub usage: u64,
}

/// Limits how many use a resource at the same time and how much of it.
#[derive(Debug)]
pub struct ResourceLimiter {
    pub permits: usize,
    pub usage: u64,
    pub max_usage: u64,
    pub resource_name: String,
}

impl ResourceLimiter {
    /// No more is in use than may be.
    pub open spec fn wf(&self) -> bool {
        self.usage <= self.max_usage
    }

    /// So many may use so much together.
    pub fn new(max_concurrent: usize, max_usage: u64, resource_name: String) -> (r: Self)
        ensures
            r == (ResourceLimiter { permits: max_concurrent, usage: 0, max_usage, resource_name }),
            r.wf(),
    {
        ResourceLimiter { permits: max_concurrent, usage: 0, max_usage, resource_name }
    }

    /// Leave to use so much, where that keeps within the limit and one more may use the
    /// resource.
    pub fn try_acquire(&mut self, usage: u64) -> (r: Result<Option<ResourcePermit>, DaggerError>)
        requires
            old(self).wf(),
            old(self).usage + usage <= u64::MAX,
        ensures
            final(self).wf(),
            r is Ok <==> old(self).usage + usage <= old(self).max_usage,
            r matches Err(e) ==> *final(self) == *old(self) && e.is_exhausted(
                old(self).resource_name@,
                old(self).usage + usage,
                old(self).max_usage as int,
            ),
            r matches Ok(p) ==> {
                &&& p is Some <==> old(self).permits > 0
                &&& p is None ==> *final(self) == *old(self)
                &&& p matches Some(permit) ==> permit.usage == usage && *final(self) == (ResourceLimiter {
                    permits: (old(self).permits - 1) as usize,
                    usage: (old(self).usage + usage) as u64,
                    ..*old(self)
                })
            },
    {
        let total: u64 = self.usage + usage;
        if total > self.max_usage {
            return Err(DaggerError::resource_exhausted(self.resource_name.as_str(), total, self.max_usage));
        }
        if self.permits == 0 {
            return Ok(None);
        }
        self.permits = self.permits - 1;
        self.usage = total;
        Ok(Some(ResourcePermit { usage }))
    }

    /// Takes leave back.
    pub fn release(&mut self, permit: ResourcePermit)
        requires
            old(self).wf(),
            permit.usage <= old(self).usage,
            old(self).permits < usize::MAX,
        ensures
            final(self).wf(),
            *final(self) == (ResourceLimiter {
                permits: (old(self).permits + 1) as usize,
                usage: (old(self).usage - permit.usage) as u64,
                ..*old(self)
            }),
    {
        self.permits = self.permits + 1;
        self.usage = self.usage - permit.usage;
    }

    /// How much is in use.
    pub fn current_usage(&self) -> (r: u64)
        ensures
            r == self.usage,
    {
        self.usage
    }

    /// How many more may use the resource.
    pub fn available_permits(&self) -> (r: usize)
        ensures
            r == self.permits,
    {
        self.permits
    }
}

/// The locks have their places, from the settings to the record of execution.
pub proof fn locks_have_places(l: LockOrder, r: u8)
    requires
        call_ensures(LockOrder::position, (l,), r),
    ensures
        l is Config ==> r == 0,
        l is Registry ==> r == 1,
        l is Tasks ==> r == 2,
        l is Cache ==> r == 3,
        l is Channels ==> r == 4,
        l is ExecutionTree ==> r == 5,
{
}

/// A lock is had exactly where it stands behind each that is held, as long as those are in
/// order; it is then held too, and all others still are.
pub proof fn lock_is_had_in_order(m: &mut LockManager, l: LockOrder, r: Result<(), DaggerError>)
    requires
        call_ensures(LockManager::acquire, (m, l), r),
        in_order(old(m)@),
    ensures
        r is Ok <==> forall|i: int| 0 <= i < old(m)@.len() ==> (#[trigger] old(m)@[i]).rank() < l.rank(),
        r is Ok ==> final(m)@.contains(l) && forall|k: LockOrder| k != l ==> (#[trigger] final(m)@.contains(k) <==> old(m)@.contains(k)),
        r is Err ==> final(m)@ == old(m)@,
        r matches Err(e) ==> (e matches DaggerError::Concurrency { operation, .. } && operation@
            == "Lock ordering violation: trying to acquire "@ + l.text() + " after "@ + old(m)@.last().text()),
{
    let held = old(m)@;
    if held.len() > 0 {
        assert forall|i: int| 0 <= i < held.len() && held.last().rank() < l.rank() implies (#[trigger] held[i]).rank()
            < l.rank() by {
            if i < held.len() - 1 {
                assert(held[i].rank() < held[held.len() - 1].rank());
            }
        }
    }
    if r is Ok {
        let after = held.push(l);
        assert(after[held.len() as int] == l);
        assert forall|k: LockOrder| k != l implies (#[trigger] after.contains(k) <==> held.contains(k)) by {
            if held.contains(k) {
                let i = choose|i: int| 0 <= i < held.len() && held[i] == k;
                assert(after[i] == k);
            }
        }
    }
}

proof fn lemma_released_rest(locks: Seq<LockOrder>, lock: LockOrder, other: LockOrder)
    ensures
        other != lock ==> (released(locks, lock).contains(other) <==> locks.contains(other)),
        in_order(locks) ==> !released(locks, lock).contains(lock),
    decreases locks.len(),
{
    let after = released(locks, lock);
    if locks.len() > 0 {
        let rest = locks.drop_first();
        lemma_released_rest(rest, lock, other);
        if in_order(locks) {
            assert forall|i: int, j: int| 0 <= i < j < rest.len() implies (#[trigger] rest[i]).rank() < (#[trigger] rest[j]).rank() by {
                assert(locks[i + 1].rank() < locks[j + 1].rank());
            }
        }
        if locks[0] == lock {
            if rest.contains(other) {
                let i = choose|i: int| 0 <= i < rest.len() && rest[i] == other;
                assert(locks[i + 1] == other);
            }
            if other != lock && locks.contains(other) {
                let i = choose|i: int| 0 <= i < locks.len() && locks[i] == other;
                assert(rest[i - 1] == other);
            }
            if in_order(locks) && rest.contains(lock) {
                let i = choose|i: int| 0 <= i < rest.len() && rest[i] == lock;
                assert(locks[0].rank() < locks[i + 1].rank());
            }
        } else {
            let less = released(rest, lock);
            assert(after == seq![locks[0]] + less);
            assert forall|k: LockOrder| after.contains(k) <==> (k == locks[0] || less.contains(k)) by {
                if less.contains(k) {
                    let i = choose|i: int| 0 <= i < less.len() && less[i] == k;
                    assert(after[i + 1] == k);
                }
                if k == locks[0] {
                    assert(after[0] == k);
                }
                if after.contains(k) && k != locks[0] {
                    let i = choose|i: int| 0 <= i < after.len() && after[i] == k;
                    assert(less[i - 1] == k);
                }
            }
            assert(locks.contains(other) <==> other == locks[0] || rest.contains(other)) by {
                if rest.contains(other) {
                    let i = choose|i: int| 0 <= i < rest.len() && rest[i] == other;
                    assert(locks[i + 1] == other);
                }
                if locks.contains(other) && other != locks[0] {
                    let i = choose|i: int| 0 <= i < locks.len() && locks[i] == other;
                    assert(rest[i - 1] == other);
                }
            }
            assert(after.contains(other) <==> other == locks[0] || less.contains(other));
            assert(after.contains(lock) <==> lock == locks[0] || less.contains(lock));
        }
    }
}

/// A lock that is given back is no longer held, and each other still is.
pub proof fn lock_is_given_back(m: &mut LockManager, l: LockOrder, other: LockOrder)
    requires
        call_ensures(LockManager::release, (m, l), ()),
        in_order(old(m)@),
    ensures
        !final(m)@.contains(l),
        other != l ==> (final(m)@.contains(other) <==> old(m)@.contains(other)),
        in_order(final(m)@),
{
    lemma_released_rest(old(m)@, l, other);
}

/// The statuses have their numbers, and three of them are final.
pub proof fn statuses_have_numbers(s: TaskStatus, n: u8, t: &AtomicTaskState, ended: bool)
    requires
        call_ensures(TaskStatus::code, (s,), n),
        call_ensures(AtomicTaskState::is_terminal, (t,), ended),
    ensures
        s is Pending ==> n == 0,
        s is InProgress ==> n == 1,
        s is Completed ==> n == 2,
        s is Failed ==> n == 3,
        s is Blocked ==> n == 4,
        s is Accepted ==> n == 5,
        s is Rejected ==> n == 6,
        t.status is Completed || t.status is Failed || t.status is Rejected ==> ended,
        t.status is Pending || t.status is InProgress || t.status is Blocked || t.status is Accepted ==> !ended,
{
}

/// Each status has its name.
pub proof fn statuses_have_names(s: TaskStatus, r: &'static str)
    requires
        call_ensures(TaskStatus::name, (s,), r),
    ensures
        s is Pending ==> r@ == "Pending"@,
        s is InProgress ==> r@ == "InProgress"@,
        s is Completed ==> r@ == "Completed"@,
        s is Failed ==> r@ == "Failed"@,
        s is Blocked ==> r@ == "Blocked"@,
        s is Accepted ==> r@ == "Accepted"@,
        s is Rejected ==> r@ == "Rejected"@,
{
}

/// A task changes its status exactly where it has the expected one; it then has the new one and
/// the time, all other tasks are as before, and those who wait for such a change are woken.
pub proof fn status_changes_where_expected(
    g: &mut ConcurrentTaskRegistry,
    id: &str,
    expected: TaskStatus,
    new: TaskStatus,
    now: u64,
    r: Result<(TaskStatus, Option<Notice>), DaggerError>,
)
    requires
        call_ensures(ConcurrentTaskRegistry::update_task_status, (g, id, expected, new, now), r),
        old(g).wf(),
    ensures
        r is Ok <==> old(g)@.tasks.contains_key(id@) && old(g)@.tasks[id@].status == expected,
        r is Err ==> final(g)@ == old(g)@,
        r is Ok ==> final(g)@.tasks[id@].status == new && final(g)@.tasks[id@].last_updated == now && final(g)@.tasks[id@].attempts == old(g)@.tasks[id@].attempts && final(g)@.tasks[id@].agent == old(g)@.tasks[id@].agent && final(g)@.tasks[id@].job_id == old(g)@.tasks[id@].job_id,
        forall|k: Seq<char>|
            k != id@ ==> (#[trigger] final(g)@.tasks.contains_key(k) <==> old(g)@.tasks.contains_key(k)) && final(g)@.tasks[k]
                == old(g)@.tasks[k],
        r matches Ok(x) ==> x.0 == new && (x.1 == Some(Notice::Ready) <==> new is Pending) && (x.1 == Some(Notice::Completed)
            <==> new is Completed) && (x.1 == Some(Notice::Failed) <==> new is Failed || new is Rejected),
        r is Ok && (new is Pending || new is Completed || new is Failed || new is Rejected) && old(g)@.notifications.notifications_sent < u64::MAX ==> final(g)@.notifications.notifications_sent == old(g)@.notifications.notifications_sent + 1,
        r is Ok && (new is InProgress || new is Blocked || new is Accepted) ==> final(g)@.notifications == old(g)@.notifications,
        old(g)@.tasks.contains_key(id@) && old(g)@.tasks[id@].status != expected ==> (r matches Err(
            DaggerError::Concurrency { operation, .. },
        ) && operation@ == "Task "@ + id@ + " status update failed: expected "@ + expected.text() + ", actual "@ + old(g)@.tasks[id@].status.text()),
        !old(g)@.tasks.contains_key(id@) ==> (r matches Err(DaggerError::Task { task_id, message, .. }) && task_id@ == id@
            && message@ == "Task not found"@),
        final(g)@.by_job == old(g)@.by_job && final(g)@.count == old(g)@.count,
{
}

/// A task that changed its status is listed last under the new one.
pub proof fn changed_task_is_listed(
    g: &mut ConcurrentTaskRegistry,
    id: &str,
    expected: TaskStatus,
    new: TaskStatus,
    now: u64,
    r: Result<(TaskStatus, Option<Notice>), DaggerError>,
    s: TaskStatus,
    n: u8,
    other: Seq<char>,
)
    requires
        call_ensures(ConcurrentTaskRegistry::update_task_status, (g, id, expected, new, now), r),
        call_ensures(TaskStatus::code, (s,), n),
        old(g).wf(),
        r is Ok,
    ensures
        s == new ==> (final(g)@.by_status[n as int] matches Some(ids) && ids.len() > 0 && ids.last() == id@),
        s != new && s != expected ==> final(g)@.by_status[n as int] == old(g)@.by_status[n as int],
        s == expected && s != new && other != id@ ==> listed_under(final(g)@.by_status, n, other) == listed_under(
            old(g)@.by_status,
            n,
            other,
        ),
        s == expected && s != new && old(g)@.by_status[n as int] is Some && old(g)@.by_status[n as int]->0.no_duplicates()
            ==> !listed_under(final(g)@.by_status, n, id@),
{
    if old(g)@.by_status[n as int] is Some {
        lemma_unlisted(old(g)@.by_status[n as int]->0, id@, other);
    }
}

/// Whether `id` is listed under the status with the number `n`.
pub open spec fn listed_under(lists: Seq<Option<Seq<Seq<char>>>>, n: u8, id: Seq<char>) -> bool {
    lists[n as int] matches Some(ids) && ids.contains(id)
}

proof fn lemma_unlisted(v: Seq<Seq<char>>, id: Seq<char>, other: Seq<char>)
    ensures
        other != id ==> (unlisted(v, id).contains(other) <==> v.contains(other)),
        v.no_duplicates() ==> !unlisted(v, id).contains(id),
    decreases v.len(),
{
    let after = unlisted(v, id);
    if v.len() > 0 {
        let rest = v.drop_first();
        lemma_unlisted(rest, id, other);
        assert(v.contains(other) <==> other == v[0] || rest.contains(other)) by {
            if rest.contains(other) {
                let i = choose|i: int| 0 <= i < rest.len() && rest[i] == other;
                assert(v[i + 1] == other);
            }
            if v.contains(other) && other != v[0] {
                let i = choose|i: int| 0 <= i < v.len() && v[i] == other;
                assert(rest[i - 1] == other);
            }
        }
        if v.no_duplicates() {
            assert forall|i: int, j: int| 0 <= i < rest.len() && 0 <= j < rest.len() && i != j implies rest[i] != rest[j] by {
                assert(v[i + 1] != v[j + 1]);
            }
        }
        if v[0] == id {
            if v.no_duplicates() && rest.contains(id) {
                let i = choose|i: int| 0 <= i < rest.len() && rest[i] == id;
                assert(v[0] != v[i + 1]);
            }
        } else {
            let less = unlisted(rest, id);
            assert(after == seq![v[0]] + less);
            assert forall|k: Seq<char>| after.contains(k) <==> (k == v[0] || less.contains(k)) by {
                if less.contains(k) {
                    let i = choose|i: int| 0 <= i < less.len() && less[i] == k;
                    assert(after[i + 1] == k);
                }
                if k == v[0] {
                    assert(after[0] == k);
                }
                if after.contains(k) && k != v[0] {
                    let i = choose|i: int| 0 <= i < after.len() && after[i] == k;
                    assert(less[i - 1] == k);
                }
            }
            assert(after.contains(other) <==> other == v[0] || less.contains(other));
            assert(after.contains(id) <==> id == v[0] || less.contains(id));
        }
    }
}

/// A task is claimed exactly where nobody had it; it is then in progress, and a second claim
/// fails.
pub proof fn task_is_claimed_once(
    a: &mut ConcurrentTaskRegistry,
    id: &str,
    now: u64,
    r: Result<bool, DaggerError>,
    b: &mut ConcurrentTaskRegistry,
    later: u64,
    s: Result<bool, DaggerError>,
)
    requires
        call_ensures(ConcurrentTaskRegistry::try_claim_task, (a, id, now), r),
        call_ensures(ConcurrentTaskRegistry::try_claim_task, (b, id, later), s),
    ensures
        r is Ok <==> old(a)@.tasks.contains_key(id@),
        r matches Ok(had) ==> (had <==> old(a)@.tasks[id@].status is Pending),
        r == Ok::<bool, DaggerError>(true) ==> final(a)@.tasks[id@].status is InProgress && final(a)@.tasks[id@].last_updated == now,
        r != Ok::<bool, DaggerError>(true) ==> final(a)@ == old(a)@,
        *old(b) == *final(a) && r is Ok ==> s == Ok::<bool, DaggerError>(false),
        forall|k: Seq<char>|
            k != id@ ==> (#[trigger] final(a)@.tasks.contains_key(k) <==> old(a)@.tasks.contains_key(k)) && final(a)@.tasks[k]
                == old(a)@.tasks[k],
{
}

proof fn lemma_claimable_filter(tasks: Map<Seq<char>, AtomicTaskState>, ids: Seq<Seq<char>>)
    ensures
        claimable(tasks, ids) == ids.filter(|id: Seq<char>| tasks.contains_key(id) && tasks[id].status is Pending),
    decreases ids.len(),
{
    reveal(Seq::filter);
    if ids.len() > 0 {
        lemma_claimable_filter(tasks, ids.drop_last());
    }
}

/// The tasks of a job that can be taken are those listed for it that nobody has taken, in
/// order.
pub proof fn ready_tasks_of_a_job(g: &ConcurrentTaskRegistry, job: &str, r: Vec<String>)
    requires
        call_ensures(ConcurrentTaskRegistry::get_ready_tasks_for_job, (g, job), r),
    ensures
        !g@.by_job.contains_key(job@) ==> r@.len() == 0,
        g@.by_job.contains_key(job@) ==> views(r@) == g@.by_job[job@].filter(
            |id: Seq<char>| g@.tasks.contains_key(id) && g@.tasks[id].status is Pending,
        ),
{
    if g@.by_job.contains_key(job@) {
        lemma_claimable_filter(g@.tasks, g@.by_job[job@]);
    } else {
        assert(views(r@).len() == r@.len());
    }
}

/// The tasks that can be taken are those listed as pending that nobody has taken, in order.
pub proof fn ready_tasks_are_pending(g: &ConcurrentTaskRegistry, r: Vec<String>)
    requires
        call_ensures(ConcurrentTaskRegistry::get_ready_tasks, (g,), r),
    ensures
        g@.by_status[0] matches Some(ids) ==> views(r@) == ids.filter(
            |id: Seq<char>| g@.tasks.contains_key(id) && g@.tasks[id].status is Pending,
        ),
        g@.by_status[0] is None ==> r@.len() == 0,
{
    if g@.by_status[0] is Some {
        lemma_claimable_filter(g@.tasks, g@.by_status[0]->0);
    } else {
        assert(views(r@).len() == r@.len());
    }
}

/// A task that is added is there, is listed last for its job and under its status, and wakes
/// those who wait for tasks where it can be taken.
pub proof fn added_task_is_there(
    g: &mut ConcurrentTaskRegistry,
    task: AtomicTaskState,
    r: Result<Option<Notice>, DaggerError>,
    s: TaskStatus,
    n: u8,
)
    requires
        call_ensures(ConcurrentTaskRegistry::add_task, (g, task), r),
        call_ensures(TaskStatus::code, (s,), n),
        old(g).wf(),
    ensures
        r is Ok <==> !old(g)@.tasks.contains_key(task.id@),
        final(g)@.tasks.contains_key(task.id@) && final(g)@.tasks[task.id@] == task,
        r is Ok ==> final(g)@.by_job.contains_key(task.job_id@) && final(g)@.by_job[task.job_id@].last() == task.id@,
        r is Ok && old(g)@.by_job.contains_key(task.job_id@) ==> final(g)@.by_job[task.job_id@].drop_last() == old(g)@.by_job[task.job_id@],
        r is Ok && s == task.status ==> (final(g)@.by_status[n as int] matches Some(ids) && ids.len() > 0 && ids.last()
            == task.id@),
        r is Ok && s != task.status ==> final(g)@.by_status[n as int] == old(g)@.by_status[n as int],
        r matches Ok(notice) ==> (notice == Some(Notice::Ready) <==> task.status is Pending) && (notice is None <==> !(
        task.status is Pending)),
        r is Ok && old(g)@.count < u64::MAX ==> final(g)@.count == old(g)@.count + 1,
        r is Err ==> final(g)@.by_job == old(g)@.by_job && final(g)@.by_status == old(g)@.by_status && final(g)@.count == old(g)@.count,
        forall|k: Seq<char>|
            k != task.id@ ==> (#[trigger] final(g)@.tasks.contains_key(k) <==> old(g)@.tasks.contains_key(k)) && final(g)@.tasks[k] == old(g)@.tasks[k],
{
    if r is Ok && old(g)@.by_job.contains_key(task.job_id@) {
        assert(old(g)@.by_job[task.job_id@].push(task.id@).drop_last() =~= old(g)@.by_job[task.job_id@]);
    }
}

/// Leave to use a resource is had where so much and so many keep within the limits; giving it
/// back undoes it.
pub proof fn leave_is_had_and_given_back(
    a: &mut ResourceLimiter,
    usage: u64,
    r: Result<Option<ResourcePermit>, DaggerError>,
    b: &mut ResourceLimiter,
    permit: ResourcePermit,
)
    requires
        call_ensures(ResourceLimiter::try_acquire, (a, usage), r),
        call_ensures(ResourceLimiter::release, (b, permit), ()),
    ensures
        (r matches Ok(Some(p))) <==> old(a).usage + usage <= old(a).max_usage && old(a).permits > 0,
        r matches Ok(Some(p)) ==> final(a).usage == old(a).usage + usage && final(a).permits == old(a).permits - 1,
        *old(b) == *final(a) && (r matches Ok(Some(p)) && p == permit) ==> final(b).usage == old(a).usage && final(b).permits
            == old(a).permits,
{
}

/// A lock may be had exactly where it comes behind the one that was taken last.
pub proof fn locks_are_asked_for_in_order(m: &LockManager, l: LockOrder, r: Result<(), DaggerError>)
    requires
        call_ensures(LockManager::can_acquire, (m, l), r),
    ensures
        m@.len() == 0 ==> r is Ok,
        m@.len() > 0 && l is Config ==> r is Err,
        m@.len() > 0 && l == m@.last() ==> r is Err,
        m@.len() > 0 && m@.last() is ExecutionTree ==> r is Err,
        m@.len() > 0 && m@.last() is Config && !(l is Config) ==> r is Ok,
        m@.len() > 0 && m@.last() is Registry ==> (r is Ok <==> l is Tasks || l is Cache || l is Channels || l is ExecutionTree),
        m@.len() > 0 && m@.last() is Tasks ==> (r is Ok <==> l is Cache || l is Channels || l is ExecutionTree),
        m@.len() > 0 && m@.last() is Cache ==> (r is Ok <==> l is Channels || l is ExecutionTree),
        m@.len() > 0 && m@.last() is Channels ==> (r is Ok <==> l is ExecutionTree),
        r matches Err(e) ==> (e matches DaggerError::Concurrency { operation, .. } && operation@
            == "Lock ordering violation: trying to acquire "@ + l.text() + " after "@ + m@.last().text()),
{
}

/// Tasks are counted by status: each status that has a list, once, with as many as are listed.
pub proof fn tasks_are_counted_by_status(g: &ConcurrentTaskRegistry, r: Vec<(TaskStatus, usize)>, s: TaskStatus, n: u8)
    requires
        call_ensures(ConcurrentTaskRegistry::get_status_counts, (g,), r),
        call_ensures(TaskStatus::code, (s,), n),
        g@.by_status[n as int] matches Some(ids) ==> ids.len() <= usize::MAX,
    ensures
        g@.by_status[n as int] matches Some(ids) ==> r@.contains((s, ids.len() as usize)),
        g@.by_status[n as int] is None ==> forall|k: int| 0 <= k < r@.len() ==> (#[trigger] r@[k]).0 != s,
{
    lemma_counts(g@.by_status, 7, s, n);
}

proof fn lemma_counts(lists: Seq<Option<Seq<Seq<char>>>>, k: int, s: TaskStatus, n: u8)
    requires
        0 <= k <= 7,
        n < 7,
        status_of(n) == s,
    ensures
        n < k && lists[n as int] is Some ==> counts_to(lists, k).contains((s, lists[n as int]->0.len() as usize)),
        n >= k || lists[n as int] is None ==> forall|i: int| 0 <= i < counts_to(lists, k).len() ==> (#[trigger] counts_to(lists, k)[i]).0 != s,
    decreases k,
{
    if k > 0 {
        lemma_counts(lists, k - 1, s, n);
        let before = counts_to(lists, k - 1);
        let after = counts_to(lists, k);
        if n == k - 1 {
            if lists[n as int] is Some {
                assert(after[before.len() as int] == (s, lists[n as int]->0.len() as usize));
            }
        } else {
            if lists[k - 1] is Some {
                assert(status_of((k - 1) as u8) != s);
            }
            if n < k - 1 && lists[n as int] is Some {
                let x = (s, lists[n as int]->0.len() as usize);
                let i = choose|i: int| 0 <= i < before.len() && before[i] == x;
                assert(after[i] == x);
            }
        }
    }
}

/// Every notice is counted, and that tasks are ready as often as there are tasks.
pub proof fn notices_are_counted(a: &mut TaskNotificationSystem, notice: Notice, r: Notice, b: &mut TaskNotificationSystem, n: usize, s: Notice)
    requires
        call_ensures(TaskNotificationSystem::notify, (a, notice), r),
        call_ensures(TaskNotificationSystem::notify_tasks_ready, (b, n), s),
    ensures
        r == notice && final(a).permits == old(a).permits,
        old(a).notifications_sent < u64::MAX ==> final(a).notifications_sent == old(a).notifications_sent + 1,
        s == Notice::Ready && final(b).permits == old(b).permits,
        old(b).notifications_sent + n <= u64::MAX ==> final(b).notifications_sent == old(b).notifications_sent + n,
{
}

/// Locks are named as they are called.
pub proof fn locks_have_names(l: LockOrder, r: &'static str)
    requires
        call_ensures(LockOrder::name, (l,), r),
    ensures
        l is Config ==> r@ == "Config"@,
        l is Registry ==> r@ == "Registry"@,
        l is Tasks ==> r@ == "Tasks"@,
        l is Cache ==> r@ == "Cache"@,
        l is Channels ==> r@ == "Channels"@,
        l is ExecutionTree ==> r@ == "ExecutionTree"@,
{
}

/// A task with an id that is taken is refused by its id, and not counted or listed.
pub proof fn repeated_task_is_refused(g: &mut ConcurrentTaskRegistry, task: AtomicTaskState, r: Result<Option<Notice>, DaggerError>)
    requires
        call_ensures(ConcurrentTaskRegistry::add_task, (g, task), r),
    ensures
        old(g)@.tasks.contains_key(task.id@) ==> (r matches Err(DaggerError::Validation { message, .. }) && message@ == "Task "@
            + task.id@ + " already exists"@),
        r is Err ==> final(g)@.count == old(g)@.count && final(g)@.by_status == old(g)@.by_status && final(g)@.by_job == old(g)@.by_job,
        r is Ok && task.status is Pending ==> r->Ok_0 == Some(Notice::Ready),
        r is Ok && !(task.status is Pending) ==> r->Ok_0 is None,
{
}

} // verus!
