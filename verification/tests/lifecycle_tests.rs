use rapidcron::lifecycle::{BackoffPolicy, ExecutionError};
use rapidcron::types::{
    ExecutionResult, ObjectId, Schedule, Task, TaskInstance, TaskPayload, TaskStatus, TaskType,
};

fn oid(n: u64) -> ObjectId {
    ObjectId { head: 0, tail: n }
}

fn task_with_retries(max_retries: Option<i32>) -> Task {
    Task {
        id: Some(oid(1)),
        name: String::from("job"),
        description: None,
        dependency_ids: vec![],
        task_type: TaskType::Command,
        schedule: Schedule::Interval(1_000),
        enabled: true,
        payload: TaskPayload::Command { command: String::from("true"), timeout_seconds: None },
        timeout_seconds: Some(30),
        max_retries,
        created_at: 0,
        updated_at: 0,
        deleted_at: None,
    }
}

fn ok_result() -> ExecutionResult {
    ExecutionResult { output: Some(String::from("done")), error: None, exit_code: Some(0) }
}

fn bad_result() -> ExecutionResult {
    ExecutionResult { output: None, error: Some(String::from("boom")), exit_code: Some(2) }
}

#[test]
fn new_instance_is_pending() {
    let i = TaskInstance::new_pending(oid(1), 500, 0, 400);
    assert_eq!(i.status, TaskStatus::Pending);
    assert_eq!(i.task_id, oid(1));
    assert_eq!(i.scheduled_time, 500);
    assert_eq!(i.created_at, 400);
    assert_eq!(i.retry_count, 0);
    assert!(i.id.is_none() && i.executor_id.is_none() && i.start_time.is_none());
    assert!(i.end_time.is_none() && i.result.is_none());
}

#[test]
fn only_first_claim_wins() {
    let mut i = TaskInstance::new_pending(oid(1), 500, 0, 400);
    assert!(i.claim(String::from("worker-a"), 510));
    assert_eq!(i.status, TaskStatus::Running);
    assert_eq!(i.executor_id.as_deref(), Some("worker-a"));
    assert_eq!(i.start_time, Some(510));
    assert!(!i.claim(String::from("worker-b"), 520));
    assert_eq!(i.executor_id.as_deref(), Some("worker-a"));
    assert_eq!(i.start_time, Some(510));
}

#[test]
fn report_ends_a_running_instance() {
    let mut i = TaskInstance::new_pending(oid(1), 500, 0, 400);
    i.claim(String::from("w"), 510);
    assert!(i.report(TaskStatus::Success, ok_result(), 600));
    assert_eq!(i.status, TaskStatus::Success);
    assert_eq!(i.end_time, Some(600));
    assert_eq!(i.result.as_ref().unwrap().exit_code, Some(0));
    assert_eq!(i.result.as_ref().unwrap().output.as_deref(), Some("done"));
}

#[test]
fn report_needs_a_running_instance_and_a_final_state() {
    let mut pending = TaskInstance::new_pending(oid(1), 500, 0, 400);
    assert!(!pending.report(TaskStatus::Success, ok_result(), 600));
    assert_eq!(pending.status, TaskStatus::Pending);

    for odd in [TaskStatus::Pending, TaskStatus::Running, TaskStatus::Cancelled] {
        let mut running = TaskInstance::new_pending(oid(1), 500, 0, 400);
        running.claim(String::from("w"), 510);
        assert!(!running.report(odd, ok_result(), 600));
        assert_eq!(running.status, TaskStatus::Running);
        assert!(running.end_time.is_none() && running.result.is_none());
    }
}

#[test]
fn terminal_states_are_sticky() {
    let mut i = TaskInstance::new_pending(oid(1), 500, 0, 400);
    i.claim(String::from("w"), 510);
    assert!(i.cancel(550));
    assert_eq!(i.status, TaskStatus::Cancelled);
    assert_eq!(i.end_time, Some(550));
    assert!(!i.report(TaskStatus::Success, ok_result(), 600));
    assert!(!i.claim(String::from("x"), 600));
    assert!(!i.cancel(700));
    assert_eq!(i.status, TaskStatus::Cancelled);
    assert_eq!(i.end_time, Some(550));
    assert!(i.result.is_none());
}

#[test]
fn cancel_applies_to_pending() {
    let mut i = TaskInstance::new_pending(oid(1), 500, 0, 400);
    assert!(i.cancel(450));
    assert_eq!(i.status, TaskStatus::Cancelled);
    assert!(i.start_time.is_none());
}

#[test]
fn overdue_is_strictly_more_than_the_timeout() {
    let mut i = TaskInstance::new_pending(oid(1), 0, 0, 0);
    i.claim(String::from("w"), 1_000);
    assert!(!i.is_overdue(Some(30), 31_000));
    assert!(i.is_overdue(Some(30), 31_001));
    assert!(!i.is_overdue(None, i64::MAX));
    assert!(i.is_overdue(Some(0), 1_001));
    assert!(!i.is_overdue(Some(0), 1_000));
    let pending = TaskInstance::new_pending(oid(1), 0, 0, 0);
    assert!(!pending.is_overdue(Some(1), i64::MAX));
}

#[test]
fn overdue_survives_extreme_clock() {
    let mut i = TaskInstance::new_pending(oid(1), 0, 0, 0);
    i.claim(String::from("w"), i64::MIN);
    assert!(i.is_overdue(Some(i32::MAX), i64::MAX));
    let mut late = TaskInstance::new_pending(oid(1), 0, 0, 0);
    late.claim(String::from("w"), i64::MAX);
    assert!(!late.is_overdue(Some(i32::MIN), i64::MIN));
}

#[test]
fn supervise_fails_an_overdue_instance() {
    let mut i = TaskInstance::new_pending(oid(1), 0, 0, 0);
    i.claim(String::from("w"), 1_000);
    assert_eq!(i.supervise(Some(30), 31_000), None);
    assert_eq!(i.status, TaskStatus::Running);
    assert_eq!(i.supervise(Some(30), 31_001), Some(ExecutionError::Timeout));
    assert_eq!(i.status, TaskStatus::Failed);
    assert_eq!(i.end_time, Some(31_001));
    let r = i.result.clone().unwrap();
    assert_eq!(r.error.as_deref(), Some("execution timed out"));
    assert!(r.output.is_none() && r.exit_code.is_none());
    // a report that arrives afterwards is discarded
    assert!(!i.report(TaskStatus::Success, ok_result(), 31_002));
    assert_eq!(i.status, TaskStatus::Failed);
    assert_eq!(i.end_time, Some(31_001));
    assert_eq!(i.supervise(Some(30), 99_000), None);
}

#[test]
fn failure_with_retries_left_has_one_successor() {
    let task = task_with_retries(Some(2));
    let mut i = TaskInstance::new_pending(oid(1), 500, 0, 400);
    i.claim(String::from("w"), 510);
    i.report(TaskStatus::Failed, bad_result(), 600);
    let next = i.retry_successor(&task, &BackoffPolicy::Immediate, 700).unwrap();
    assert_eq!(next.status, TaskStatus::Pending);
    assert_eq!(next.task_id, oid(1));
    assert_eq!(next.retry_count, 1);
    // scheduled from the end of the failed attempt, created now
    assert_eq!(next.scheduled_time, 600);
    assert_eq!(next.created_at, 700);
    let again = i.retry_successor(&task, &BackoffPolicy::Immediate, 9_000).unwrap();
    assert_eq!((again.task_id, again.scheduled_time, again.retry_count), (oid(1), 600, 1));
    assert!(next.id.is_none() && next.executor_id.is_none() && next.result.is_none());
    // the failed instance is left as the record of that attempt
    assert_eq!(i.status, TaskStatus::Failed);
    assert_eq!(i.retry_count, 0);
}

#[test]
fn no_successor_at_the_retry_limit() {
    let task = task_with_retries(Some(2));
    let mut i = TaskInstance::new_pending(oid(1), 500, 2, 400);
    i.claim(String::from("w"), 510);
    i.report(TaskStatus::Failed, bad_result(), 600);
    assert!(i.retry_successor(&task, &BackoffPolicy::Immediate, 700).is_none());
    let mut j = TaskInstance::new_pending(oid(1), 500, 1, 400);
    j.claim(String::from("w"), 510);
    j.report(TaskStatus::Failed, bad_result(), 600);
    assert_eq!(j.retry_successor(&task, &BackoffPolicy::Immediate, 700).unwrap().retry_count, 2);
}

#[test]
fn no_successor_without_a_limit_or_without_failure() {
    let mut failed = TaskInstance::new_pending(oid(1), 500, 0, 400);
    failed.claim(String::from("w"), 510);
    failed.report(TaskStatus::Failed, bad_result(), 600);
    assert!(failed.retry_successor(&task_with_retries(None), &BackoffPolicy::Immediate, 700).is_none());
    assert!(failed.retry_successor(&task_with_retries(Some(0)), &BackoffPolicy::Immediate, 700).is_none());
    assert!(failed.retry_successor(&task_with_retries(Some(-3)), &BackoffPolicy::Immediate, 700).is_none());

    let task = task_with_retries(Some(5));
    let mut ok = TaskInstance::new_pending(oid(1), 500, 0, 400);
    ok.claim(String::from("w"), 510);
    ok.report(TaskStatus::Success, ok_result(), 600);
    assert!(ok.retry_successor(&task, &BackoffPolicy::Immediate, 700).is_none());
    let mut cancelled = TaskInstance::new_pending(oid(1), 500, 0, 400);
    cancelled.cancel(600);
    assert!(cancelled.retry_successor(&task, &BackoffPolicy::Immediate, 700).is_none());
    let pending = TaskInstance::new_pending(oid(1), 500, 0, 400);
    assert!(pending.retry_successor(&task, &BackoffPolicy::Immediate, 700).is_none());
}

#[test]
fn backoff_delays() {
    assert_eq!(BackoffPolicy::Immediate.retry_time(3, 1_000), 1_000);
    assert_eq!(BackoffPolicy::Fixed(250).retry_time(0, 1_000), 1_250);
    assert_eq!(BackoffPolicy::Fixed(250).retry_time(7, 1_000), 1_250);
    assert_eq!(BackoffPolicy::Fixed(-5).retry_time(7, 1_000), 1_000);
    assert_eq!(BackoffPolicy::Linear(100).retry_time(0, 1_000), 1_100);
    assert_eq!(BackoffPolicy::Linear(100).retry_time(1, 1_000), 1_200);
    assert_eq!(BackoffPolicy::Linear(100).retry_time(4, 1_000), 1_500);
    assert_eq!(BackoffPolicy::Linear(-100).retry_time(4, 1_000), 1_000);
    assert_eq!(BackoffPolicy::Linear(100).retry_time(-2, 1_000), 1_000);
}

#[test]
fn backoff_saturates() {
    assert_eq!(BackoffPolicy::Fixed(10).retry_time(0, i64::MAX - 3), i64::MAX);
    assert_eq!(BackoffPolicy::Linear(i64::MAX).retry_time(i32::MAX, i64::MAX), i64::MAX);
    assert_eq!(BackoffPolicy::Linear(i64::MAX).retry_time(0, i64::MIN), -1);
}

#[test]
fn successor_follows_the_backoff_policy() {
    let task = task_with_retries(Some(5));
    let mut i = TaskInstance::new_pending(oid(1), 500, 2, 400);
    i.claim(String::from("w"), 510);
    i.report(TaskStatus::Failed, bad_result(), 600);
    let next = i.retry_successor(&task, &BackoffPolicy::Linear(1_000), 10_000).unwrap();
    assert_eq!(next.scheduled_time, 3_600);
    assert_eq!(next.retry_count, 3);
    let next = i.retry_successor(&task, &BackoffPolicy::Fixed(250), 10_000).unwrap();
    assert_eq!(next.scheduled_time, 850);
    // an instance that bears no end time is retried from now
    i.end_time = None;
    let next = i.retry_successor(&task, &BackoffPolicy::Fixed(250), 10_000).unwrap();
    assert_eq!(next.scheduled_time, 10_250);
}

#[test]
fn status_terminal() {
    assert!(!TaskStatus::Pending.is_terminal());
    assert!(!TaskStatus::Running.is_terminal());
    assert!(TaskStatus::Success.is_terminal());
    assert!(TaskStatus::Failed.is_terminal());
    assert!(TaskStatus::Cancelled.is_terminal());
}
