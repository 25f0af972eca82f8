//! Tasks that are claimed, counted and limited.

use dagger::concurrency::{
    AtomicTaskState, ConcurrentTaskRegistry, LockManager, LockOrder, Notice, ResourceLimiter, TaskNotificationSystem, TaskStatus,
};
use dagger::errors::DaggerError;

fn task(id: &str, job: &str) -> AtomicTaskState {
    AtomicTaskState::new(id.to_string(), job.to_string(), "test_agent".to_string(), 0)
}

#[test]
fn test_atomic_task_state() {
    let mut task = AtomicTaskState::new("test_task".to_string(), "test_job".to_string(), "test_agent".to_string(), 0);

    assert_eq!(task.get_status(), TaskStatus::Pending);
    assert!(task.can_claim());
    assert!(task.try_claim(1));
    assert_eq!(task.get_status(), TaskStatus::InProgress);
    assert!(!task.can_claim());

    let result = task.compare_and_set_status(TaskStatus::InProgress, TaskStatus::Completed, 2);
    assert!(result.is_ok());
    assert_eq!(task.get_status(), TaskStatus::Completed);
    assert!(task.is_terminal());
}

#[test]
fn test_concurrent_task_registry() {
    let mut registry = ConcurrentTaskRegistry::new(10);
    let task = AtomicTaskState::new("test_task".to_string(), "test_job".to_string(), "test_agent".to_string(), 0);

    registry.add_task(task).unwrap();
    assert_eq!(registry.task_count(), 1);

    let ready_tasks = registry.get_ready_tasks();
    assert_eq!(ready_tasks.len(), 1);

    assert!(registry.try_claim_task("test_task", 1).unwrap());
    let ready_tasks = registry.get_ready_tasks();
    assert_eq!(ready_tasks.len(), 0);
}

#[test]
fn test_notification_system() {
    let mut system = TaskNotificationSystem::new(5);

    let permit = system.try_acquire_execution_permit().unwrap();
    assert_eq!(system.available_permits(), 4);
    system.release_execution_permit(permit);
    assert_eq!(system.available_permits(), 5);

    let notify_count_before = system.get_notifications_sent();
    system.notify_task_ready();
    let notify_count_after = system.get_notifications_sent();
    assert_eq!(notify_count_after, notify_count_before + 1);
}

#[test]
fn test_resource_limiter() {
    let mut limiter = ResourceLimiter::new(2, 100, "memory".to_string());

    let permit1 = limiter.try_acquire(30).unwrap().unwrap();
    assert_eq!(limiter.current_usage(), 30);

    let permit2 = limiter.try_acquire(40).unwrap().unwrap();
    assert_eq!(limiter.current_usage(), 70);

    let result = limiter.try_acquire(50);
    assert!(result.is_err());

    limiter.release(permit1);
    assert_eq!(limiter.current_usage(), 40);
    limiter.release(permit2);
    assert_eq!(limiter.current_usage(), 0);
}

#[test]
fn test_lock_ordering() {
    let mut lock_manager = LockManager::new();

    lock_manager.acquire(LockOrder::Config).unwrap();
    lock_manager.acquire(LockOrder::Registry).unwrap();
    lock_manager.acquire(LockOrder::Tasks).unwrap();

    let result = lock_manager.acquire(LockOrder::Config);
    assert!(result.is_err());

    lock_manager.release(LockOrder::Tasks);
    lock_manager.release(LockOrder::Registry);
    lock_manager.release(LockOrder::Config);
    assert!(lock_manager.acquire(LockOrder::Config).is_ok());
}

#[test]
fn status_numbers_round_trip() {
    for n in 0u8..=6 {
        assert_eq!(TaskStatus::from(n).code(), n);
    }
    assert_eq!(TaskStatus::from(7), TaskStatus::Failed);
    assert_eq!(TaskStatus::from(255), TaskStatus::Failed);
}

#[test]
fn a_claim_that_fails_changes_nothing() {
    let mut t = task("a", "j");
    assert_eq!(t.set_status(TaskStatus::Completed, 3), TaskStatus::Pending);
    assert_eq!(t.get_last_updated(), 3);
    assert!(!t.try_claim(9));
    assert_eq!(t.get_last_updated(), 3);
    assert_eq!(
        t.compare_and_set_status(TaskStatus::Pending, TaskStatus::Failed, 9),
        Err(TaskStatus::Completed)
    );
    assert_eq!(t.get_attempts(), 0);
    assert_eq!(t.increment_attempts(), 1);
    t.touch(11);
    assert_eq!(t.get_last_updated(), 11);
}

#[test]
fn registry_keeps_tasks_by_job_and_status() {
    let mut registry = ConcurrentTaskRegistry::new(2);
    assert_eq!(registry.add_task(task("a", "j1")).unwrap(), Some(Notice::Ready));
    registry.add_task(task("b", "j1")).unwrap();
    registry.add_task(task("c", "j2")).unwrap();
    assert_eq!(registry.get_ready_tasks_for_job("j1"), vec!["a".to_string(), "b".to_string()]);
    assert_eq!(registry.get_ready_tasks_for_job("none"), Vec::<String>::new());

    registry.update_task_status("a", TaskStatus::Pending, TaskStatus::Completed, 5).unwrap();
    assert_eq!(registry.get_task("a").unwrap().get_status(), TaskStatus::Completed);
    assert_eq!(registry.get_ready_tasks_for_job("j1"), vec!["b".to_string()]);
    let counts = registry.get_status_counts();
    assert!(counts.contains(&(TaskStatus::Completed, 1)));
    assert!(counts.contains(&(TaskStatus::Pending, 2)));

    let refused = registry.update_task_status("a", TaskStatus::Pending, TaskStatus::Failed, 6);
    assert!(refused.is_err());
    let missing = registry.try_claim_task("zzz", 1);
    assert!(missing.is_err());
    assert!(!registry.try_claim_task("a", 7).unwrap());

    let again = registry.add_task(task("b", "j1"));
    assert_eq!(again.unwrap_err().message(), "Validation failed: Task b already exists");
    assert_eq!(registry.task_count(), 3);
}

#[test]
fn permits_run_out() {
    let mut system = TaskNotificationSystem::new(1);
    let permit = system.try_acquire_execution_permit();
    assert!(permit.is_some());
    assert!(system.try_acquire_execution_permit().is_none());

    let mut limiter = ResourceLimiter::new(1, 10, "disk".to_string());
    let first = limiter.try_acquire(1).unwrap();
    assert!(first.is_some());
    assert!(limiter.try_acquire(1).unwrap().is_none());
    assert_eq!(limiter.available_permits(), 0);
    let refused = limiter.try_acquire(10);
    assert!(matches!(refused, Err(DaggerError::ResourceExhaustion { current: 11, limit: 10, .. })));
}

#[test]
fn a_lock_out_of_order_says_which() {
    let mut locks = LockManager::new();
    locks.acquire(LockOrder::Cache).unwrap();
    assert!(locks.can_acquire(LockOrder::Channels).is_ok());
    assert!(locks.can_acquire(LockOrder::Cache).is_err());
    assert!(matches!(locks.can_acquire(LockOrder::Config), Err(DaggerError::Concurrency { .. })));
}
