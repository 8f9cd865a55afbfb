use rapidcron::cron::Calendar;
use rapidcron::engine::{Scheduler, Settlement};
use rapidcron::lifecycle::{BackoffPolicy, ExecutionError};
use rapidcron::types::{
    CreateTaskRequest, ExecutionResult, ObjectId, Schedule, TaskPayload, TaskStatus, TaskType,
    TriggeredBy,
};

const T0: i64 = 1_700_000_000_000; // 2023-11-14 22:13:20 UTC, a Tuesday

fn request(name: &str, schedule: Schedule) -> CreateTaskRequest {
    CreateTaskRequest {
        name: name.to_string(),
        description: None,
        dependency_ids: vec![],
        task_type: TaskType::Command,
        schedule,
        enabled: true,
        payload: TaskPayload::Command { command: "run".to_string(), timeout_seconds: None },
        timeout_seconds: Some(30),
        max_retries: Some(2),
    }
}

fn noon() -> Calendar {
    Calendar { second: 0, minute: 0, hour: 12, day: 15, month: 6, weekday: 1 }
}

fn failure() -> ExecutionResult {
    ExecutionResult { output: None, error: Some("exit 1".to_string()), exit_code: Some(1) }
}

fn success() -> ExecutionResult {
    ExecutionResult { output: Some("ok".to_string()), error: None, exit_code: Some(0) }
}

const NOTHING: Settlement = Settlement { log_id: None, retry_id: None };

#[test]
fn many_planners_make_one_instance() {
    let mut s = Scheduler::new(BackoffPolicy::Immediate);
    let t = s.store.create_task(request("t", Schedule::Interval(60_000)), T0).unwrap();
    let first = s.tick(T0 + 125_000, &noon());
    assert_eq!(first.len(), 1);
    assert_eq!(first[0].task_id, t);
    assert_eq!(first[0].scheduled_time, T0 + 120_000);
    assert!(first[0].instance_id.is_some());
    for _ in 0..20 {
        assert!(s.tick(T0 + 125_000, &noon()).is_empty());
    }
    assert_eq!(s.store.instances().len(), 1);
    let inst = &s.store.instances()[0];
    assert_eq!(inst.id, first[0].instance_id);
    assert_eq!(inst.status, TaskStatus::Pending);
    assert_eq!(inst.retry_count, 0);
    assert_eq!(inst.created_at, T0 + 125_000);
}

#[test]
fn tick_waits_for_dependencies() {
    let mut s = Scheduler::new(BackoffPolicy::Immediate);
    let up = s.store.create_task(request("up", Schedule::Once(T0)), T0).unwrap();
    let down = s
        .store
        .create_task(
            CreateTaskRequest { dependency_ids: vec![up], ..request("down", Schedule::Once(T0)) },
            T0,
        )
        .unwrap();
    let made = s.tick(T0 + 1, &noon());
    assert_eq!(made.len(), 1);
    assert_eq!(made[0].task_id, up);
    let up_instance = made[0].instance_id.unwrap();
    assert!(s.tick(T0 + 2, &noon()).is_empty());
    assert!(s.claim(up_instance, "w".to_string(), T0 + 3));
    assert!(s.tick(T0 + 4, &noon()).is_empty());
    assert!(s.report(up_instance, TaskStatus::Success, success(), T0 + 5).0);
    let made = s.tick(T0 + 6, &noon());
    assert_eq!(made.len(), 1);
    assert_eq!(made[0].task_id, down);
    assert_eq!(made[0].scheduled_time, T0);
    assert_eq!(s.store.instances().len(), 2);
}

#[test]
fn tick_does_not_run_a_dependent_after_a_failure() {
    let mut s = Scheduler::new(BackoffPolicy::Immediate);
    let up = s
        .store
        .create_task(CreateTaskRequest { max_retries: None, ..request("up", Schedule::Once(T0)) }, T0)
        .unwrap();
    s.store
        .create_task(
            CreateTaskRequest { dependency_ids: vec![up], ..request("down", Schedule::Once(T0)) },
            T0,
        )
        .unwrap();
    let run = s.tick(T0, &noon())[0].instance_id.unwrap();
    s.claim(run, "w".to_string(), T0 + 1);
    let (applied, out) = s.report(run, TaskStatus::Failed, failure(), T0 + 2);
    assert!(applied);
    assert!(out.retry_id.is_none() && out.log_id.is_some());
    for later in [T0 + 3, T0 + 1_000_000] {
        assert!(s.tick(later, &noon()).is_empty());
    }
}

#[test]
fn tick_utc_reads_the_calendar() {
    let mut s = Scheduler::new(BackoffPolicy::Immediate);
    let expr = String::from("20 13 22 14 11 2");
    let t = s.store.create_task(request("cron", Schedule::Cron(expr)), 0).unwrap();
    assert!(s.tick_utc(T0 - 1).is_empty());
    let made = s.tick_utc(T0 + 999);
    assert_eq!(made.len(), 1);
    assert_eq!((made[0].task_id, made[0].scheduled_time), (t, T0));
    assert!(s.tick_utc(T0 + 500).is_empty());
    assert!(s.tick_utc(T0 + 1_000).is_empty());
    assert!(s.tick_utc(i64::MAX).is_empty());
    assert_eq!(s.store.instances().len(), 1);
}

#[test]
fn failure_with_retries_left_enqueues_one_retry() {
    let mut s = Scheduler::new(BackoffPolicy::Fixed(5_000));
    let t = s.store.create_task(request("t", Schedule::Once(T0)), T0).unwrap();
    let first = s.tick(T0, &noon())[0].instance_id.unwrap();
    s.claim(first, "w".to_string(), T0 + 10);
    let (applied, out) = s.report(first, TaskStatus::Failed, failure(), T0 + 20);
    assert!(applied);
    let retry = out.retry_id.unwrap();
    assert_eq!(s.store.instances().len(), 2);
    let next = s.store.get_task_instance(retry).unwrap();
    assert_eq!(next.status, TaskStatus::Pending);
    assert_eq!(next.task_id, t);
    assert_eq!(next.retry_count, 1);
    assert_eq!(next.scheduled_time, T0 + 5_020);
    assert_eq!(next.created_at, T0 + 20);
    // the failed attempt stays as it ended
    let failed = s.store.get_task_instance(first).unwrap();
    assert_eq!(failed.status, TaskStatus::Failed);
    assert_eq!(failed.retry_count, 0);
    assert_eq!(failed.end_time, Some(T0 + 20));
    // and is logged once
    let log = s.store.get_execution_log(out.log_id.unwrap()).unwrap();
    assert_eq!(log.instance_id, first);
    assert_eq!(log.status, TaskStatus::Failed);
    assert_eq!(log.error_message.as_deref(), Some("exit 1"));
    assert_eq!(log.duration_ms, 10);
    assert_eq!(log.triggered_by, TriggeredBy::Scheduler);
    assert_eq!(s.store.logs().len(), 1);
}

#[test]
fn retries_stop_at_the_limit() {
    let mut s = Scheduler::new(BackoffPolicy::Immediate);
    s.store.create_task(request("t", Schedule::Once(T0)), T0).unwrap(); // two retries
    let mut current = s.tick(T0, &noon())[0].instance_id.unwrap();
    let mut now = T0;
    for attempt in 0..3 {
        now += 100;
        assert!(s.claim(current, "w".to_string(), now));
        now += 100;
        let (applied, out) = s.report(current, TaskStatus::Failed, failure(), now);
        assert!(applied);
        assert_eq!(s.store.get_task_instance(current).unwrap().retry_count, attempt);
        if attempt < 2 {
            current = out.retry_id.unwrap();
            assert_eq!(s.store.get_task_instance(current).unwrap().retry_count, attempt + 1);
        } else {
            assert!(out.retry_id.is_none());
        }
    }
    assert_eq!(s.store.instances().len(), 3);
    assert_eq!(s.store.logs().len(), 3);
    assert!(s.store.instances().iter().all(|i| i.status == TaskStatus::Failed));
}

#[test]
fn success_and_cancellation_are_not_retried() {
    let mut s = Scheduler::new(BackoffPolicy::Immediate);
    s.store.create_task(request("a", Schedule::Once(T0)), T0).unwrap();
    s.store.create_task(request("b", Schedule::Once(T0)), T0).unwrap();
    let made = s.tick(T0, &noon());
    let (a, b) = (made[0].instance_id.unwrap(), made[1].instance_id.unwrap());
    s.claim(a, "w".to_string(), T0 + 1);
    let (applied, out) = s.report(a, TaskStatus::Success, success(), T0 + 2);
    assert!(applied && out.retry_id.is_none() && out.log_id.is_some());
    let (applied, out) = s.cancel(b, T0 + 3);
    assert!(applied && out.retry_id.is_none() && out.log_id.is_some());
    assert_eq!(s.store.instances().len(), 2);
    assert_eq!(s.store.logs().len(), 2);
    assert_eq!(s.cancel(b, T0 + 4), (false, NOTHING));
    assert_eq!(s.cancel(a, T0 + 4), (false, NOTHING));
    assert_eq!(s.store.logs().len(), 2);
}

#[test]
fn timeout_fails_the_instance_and_discards_a_late_report() {
    let mut s = Scheduler::new(BackoffPolicy::Immediate);
    s.store
        .create_task(CreateTaskRequest { max_retries: Some(0), ..request("t", Schedule::Once(T0)) }, T0)
        .unwrap();
    let id = s.tick(T0, &noon())[0].instance_id.unwrap();
    s.claim(id, "w".to_string(), T0 + 1_000);
    assert_eq!(s.supervise(id, T0 + 31_000), (None, NOTHING));
    assert_eq!(s.store.get_task_instance(id).unwrap().status, TaskStatus::Running);
    let (signal, out) = s.supervise(id, T0 + 31_001);
    assert_eq!(signal, Some(ExecutionError::Timeout));
    assert!(out.log_id.is_some() && out.retry_id.is_none());
    let inst = s.store.get_task_instance(id).unwrap();
    assert_eq!(inst.status, TaskStatus::Failed);
    assert_eq!(inst.end_time, Some(T0 + 31_001));
    // the executor reports after all: discarded
    assert_eq!(s.report(id, TaskStatus::Success, success(), T0 + 31_500), (false, NOTHING));
    let inst = s.store.get_task_instance(id).unwrap();
    assert_eq!(inst.status, TaskStatus::Failed);
    assert_eq!(inst.end_time, Some(T0 + 31_001));
    assert_eq!(inst.result.as_ref().unwrap().error.as_deref(), Some("execution timed out"));
    assert_eq!(s.store.logs().len(), 1);
    assert_eq!(s.store.logs()[0].status, TaskStatus::Failed);
    assert_eq!(s.store.logs()[0].duration_ms, 30_001);
    assert_eq!(s.supervise(id, T0 + 99_000), (None, NOTHING));
}

#[test]
fn a_report_that_lands_first_stands() {
    let mut s = Scheduler::new(BackoffPolicy::Immediate);
    s.store.create_task(request("t", Schedule::Once(T0)), T0).unwrap();
    let id = s.tick(T0, &noon())[0].instance_id.unwrap();
    s.claim(id, "w".to_string(), T0);
    assert!(s.report(id, TaskStatus::Success, success(), T0 + 40_000).0);
    assert_eq!(s.supervise(id, T0 + 40_001), (None, NOTHING));
    assert_eq!(s.store.get_task_instance(id).unwrap().status, TaskStatus::Success);
}

#[test]
fn timeout_is_retried_like_any_failure() {
    let mut s = Scheduler::new(BackoffPolicy::Linear(1_000));
    let t = s.store.create_task(request("t", Schedule::Once(T0)), T0).unwrap();
    let id = s.tick(T0, &noon())[0].instance_id.unwrap();
    s.claim(id, "w".to_string(), T0);
    let (signal, out) = s.supervise(id, T0 + 30_001);
    assert_eq!(signal, Some(ExecutionError::Timeout));
    let retry = s.store.get_task_instance(out.retry_id.unwrap()).unwrap();
    assert_eq!(retry.task_id, t);
    assert_eq!(retry.retry_count, 1);
    assert_eq!(retry.scheduled_time, T0 + 31_001);
    assert_eq!(retry.status, TaskStatus::Pending);
}

#[test]
fn sweep_fails_every_overdue_instance() {
    let mut s = Scheduler::new(BackoffPolicy::Immediate);
    for name in ["a", "b", "c", "d"] {
        s.store.create_task(request(name, Schedule::Once(T0)), T0).unwrap();
    }
    let ids: Vec<ObjectId> = s.tick(T0, &noon()).iter().map(|m| m.instance_id.unwrap()).collect();
    s.claim(ids[0], "w".to_string(), T0); // overdue at +30_001
    s.claim(ids[1], "w".to_string(), T0 + 10_000); // not yet
    s.claim(ids[2], "w".to_string(), T0 - 5); // overdue
    // ids[3] stays pending
    let answers = s.sweep(T0 + 30_001);
    let signals: Vec<Option<ExecutionError>> = answers.iter().map(|a| a.0).collect();
    assert_eq!(signals, vec![Some(ExecutionError::Timeout), None, Some(ExecutionError::Timeout), None]);
    assert_eq!(answers[1].1, NOTHING);
    assert_eq!(answers[3].1, NOTHING);
    let status = |s: &Scheduler, id: ObjectId| s.store.get_task_instance(id).unwrap().status;
    assert_eq!(status(&s, ids[0]), TaskStatus::Failed);
    assert_eq!(status(&s, ids[1]), TaskStatus::Running);
    assert_eq!(status(&s, ids[2]), TaskStatus::Failed);
    assert_eq!(status(&s, ids[3]), TaskStatus::Pending);
    // each failure is logged and retried once
    assert_eq!(s.store.logs().len(), 2);
    assert_eq!(s.store.instances().len(), 6);
    for (k, failed) in [(0usize, ids[0]), (2, ids[2])] {
        let log = s.store.get_execution_log(answers[k].1.log_id.unwrap()).unwrap();
        assert_eq!(log.instance_id, failed);
        let retry = s.store.get_task_instance(answers[k].1.retry_id.unwrap()).unwrap();
        assert_eq!(retry.task_id, s.store.get_task_instance(failed).unwrap().task_id);
        assert_eq!((retry.status, retry.retry_count), (TaskStatus::Pending, 1));
        assert_eq!(retry.scheduled_time, T0 + 30_001);
    }
    let again = s.sweep(T0 + 30_001);
    assert_eq!(again.len(), 6);
    assert!(again.iter().all(|a| *a == (None, NOTHING)));
    assert_eq!(s.store.instances().len(), 6);
    let later = s.sweep(T0 + 40_001);
    assert_eq!(later.iter().filter(|a| a.0.is_some()).count(), 1);
    assert_eq!(later[1].0, Some(ExecutionError::Timeout));
    assert_eq!(status(&s, ids[1]), TaskStatus::Failed);
    assert!(Scheduler::new(BackoffPolicy::Immediate).sweep(0).is_empty());
}

#[test]
fn engine_resumes_from_what_was_stored() {
    let mut s = Scheduler::new(BackoffPolicy::Immediate);
    let t = s.store.create_task(request("t", Schedule::Interval(60_000)), T0).unwrap();
    let first = s.tick(T0 + 60_000, &noon())[0].instance_id.unwrap();
    s.claim(first, "w".to_string(), T0 + 60_001);
    // a restart: all that is left is what was stored
    let tasks = s.store.tasks().clone();
    let instances = s.store.instances().clone();
    let logs = s.store.logs().clone();
    let store = rapidcron::store::DataStore::restore(tasks, instances, logs).unwrap();
    let mut s = Scheduler { store, backoff: BackoffPolicy::Immediate };
    assert!(s.tick(T0 + 60_500, &noon()).is_empty());
    assert!(!s.claim(first, "other".to_string(), T0 + 60_600));
    let (applied, out) = s.report(first, TaskStatus::Failed, failure(), T0 + 61_000);
    assert!(applied);
    let retry = out.retry_id.unwrap();
    let log = out.log_id.unwrap();
    assert!(retry != first && retry != t && log != first && log != t && log != retry);
    let made = s.tick(T0 + 120_000, &noon());
    assert_eq!(made.len(), 1);
    assert_eq!(made[0].scheduled_time, T0 + 120_000);
    assert_eq!(s.store.instances().len(), 3);
}

#[test]
fn settle_can_be_repeated() {
    let mut s = Scheduler::new(BackoffPolicy::Immediate);
    s.store.create_task(request("t", Schedule::Once(T0)), T0).unwrap();
    let id = s.tick(T0, &noon())[0].instance_id.unwrap();
    assert_eq!(s.settle(id, T0 + 1), NOTHING); // not ended
    assert_eq!(s.settle(ObjectId { head: 8, tail: 8 }, T0 + 1), NOTHING);
    s.claim(id, "w".to_string(), T0 + 1);
    let (_, first) = s.report(id, TaskStatus::Failed, failure(), T0 + 2);
    for later in [T0 + 2, T0 + 3, T0 + 1_000_000] {
        let again = s.settle(id, later);
        assert_eq!(again.log_id, first.log_id);
        assert!(again.retry_id.is_none()); // the retry exists
        assert_eq!(s.store.logs().len(), 1);
        assert_eq!(s.store.instances().len(), 2);
    }
}

#[test]
fn retry_converges_when_its_tick_is_taken() {
    let mut s = Scheduler::new(BackoffPolicy::Immediate);
    let t = s.store.create_task(request("t", Schedule::Once(T0)), T0).unwrap();
    let id = s.tick(T0, &noon())[0].instance_id.unwrap();
    s.claim(id, "w".to_string(), T0 + 1);
    s.store.create_task_instance(t, T0 + 50, 0, T0 + 1).unwrap();
    let (applied, out) = s.report(id, TaskStatus::Failed, failure(), T0 + 50);
    assert!(applied);
    assert!(out.retry_id.is_none() && out.log_id.is_some());
    assert_eq!(s.store.instances().len(), 2);
}
