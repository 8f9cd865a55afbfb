use rapidcron::cron::Calendar;
use rapidcron::planner::{
    due_tasks, due_tasks_at, has_key, last_materialized, next_due, ready_tasks,
};
use rapidcron::types::{ObjectId, Schedule, Task, TaskInstance, TaskPayload, TaskStatus, TaskType};

const T0: i64 = 1_700_000_000_000; // 2023-11-14 22:13:20 UTC, a Tuesday

fn oid(n: u64) -> ObjectId {
    ObjectId { head: 0, tail: n }
}

fn task(id: u64, schedule: Schedule, created_at: i64) -> Task {
    Task {
        id: Some(oid(id)),
        name: format!("task-{}", id),
        description: None,
        dependency_ids: vec![],
        task_type: TaskType::Command,
        schedule,
        enabled: true,
        payload: TaskPayload::Command { command: String::from("echo"), timeout_seconds: None },
        timeout_seconds: None,
        max_retries: None,
        created_at,
        updated_at: created_at,
        deleted_at: None,
    }
}

fn instance(task_id: u64, scheduled_time: i64, retry_count: i32, status: TaskStatus) -> TaskInstance {
    TaskInstance {
        id: None,
        task_id: oid(task_id),
        scheduled_time,
        status,
        executor_id: None,
        start_time: None,
        end_time: None,
        retry_count,
        result: None,
        created_at: scheduled_time,
    }
}

fn noon() -> Calendar {
    Calendar { second: 0, minute: 0, hour: 12, day: 15, month: 6, weekday: 1 }
}

fn every_second() -> String {
    String::from("* * * * * *")
}

#[test]
fn interval_catches_up_with_a_single_tick() {
    // created at T0, every 60 s, planner idle until T0 + 125 s
    let defs = vec![task(1, Schedule::Interval(60_000), T0)];
    let mut instances: Vec<TaskInstance> = Vec::new();
    let due = due_tasks_at(&defs, &instances, T0 + 125_000, &noon());
    assert_eq!(due, vec![(oid(1), T0 + 120_000)]);
    // once that tick exists nothing more is due at the same moment
    instances.push(instance(1, T0 + 120_000, 0, TaskStatus::Pending));
    assert!(due_tasks_at(&defs, &instances, T0 + 125_000, &noon()).is_empty());
    assert!(due_tasks_at(&defs, &instances, T0 + 179_999, &noon()).is_empty());
    assert_eq!(
        due_tasks_at(&defs, &instances, T0 + 180_000, &noon()),
        vec![(oid(1), T0 + 180_000)]
    );
}

#[test]
fn interval_is_not_due_before_the_first_period() {
    let defs = vec![task(1, Schedule::Interval(60_000), T0)];
    assert!(due_tasks_at(&defs, &Vec::new(), T0 + 5_000, &noon()).is_empty());
    assert!(due_tasks_at(&defs, &Vec::new(), T0 + 59_999, &noon()).is_empty());
    assert_eq!(
        due_tasks_at(&defs, &Vec::new(), T0 + 60_000, &noon()),
        vec![(oid(1), T0 + 60_000)]
    );
}

#[test]
fn interval_counts_from_the_latest_planned_tick() {
    let t = task(1, Schedule::Interval(60_000), T0);
    let instances = vec![
        instance(1, T0 + 60_000, 0, TaskStatus::Failed),
        instance(1, T0 + 70_000, 1, TaskStatus::Success), // a retry does not shift the grid
        instance(2, T0 + 500_000, 0, TaskStatus::Success), // another task
    ];
    assert_eq!(last_materialized(&instances, oid(1)), Some(T0 + 60_000));
    assert_eq!(last_materialized(&instances, oid(3)), None);
    assert_eq!(next_due(&t, oid(1), &instances, T0 + 119_999, &noon()), None);
    assert_eq!(next_due(&t, oid(1), &instances, T0 + 120_000, &noon()), Some(T0 + 120_000));
    assert_eq!(next_due(&t, oid(1), &instances, T0 + 250_000, &noon()), Some(T0 + 240_000));
}

#[test]
fn interval_that_is_not_positive_never_fires() {
    for d in [0, -60_000] {
        let defs = vec![task(1, Schedule::Interval(d), T0)];
        assert!(due_tasks_at(&defs, &Vec::new(), T0 + 1_000_000, &noon()).is_empty());
    }
}

#[test]
fn interval_survives_extreme_clock() {
    let t = task(1, Schedule::Interval(i64::MAX), i64::MIN);
    assert_eq!(next_due(&t, oid(1), &Vec::new(), -2, &noon()), None);
    assert_eq!(next_due(&t, oid(1), &Vec::new(), -1, &noon()), Some(-1));
    assert_eq!(next_due(&t, oid(1), &Vec::new(), i64::MAX, &noon()), Some(i64::MAX - 1));
    let fast = task(1, Schedule::Interval(7), i64::MIN);
    assert_eq!(next_due(&fast, oid(1), &Vec::new(), i64::MAX, &noon()), Some(i64::MAX - 1));
}

#[test]
fn once_fires_from_its_instant_until_materialized() {
    let defs = vec![task(1, Schedule::Once(T0 + 10), T0)];
    assert!(due_tasks_at(&defs, &Vec::new(), T0 + 9, &noon()).is_empty());
    assert_eq!(due_tasks_at(&defs, &Vec::new(), T0 + 10, &noon()), vec![(oid(1), T0 + 10)]);
    assert_eq!(due_tasks_at(&defs, &Vec::new(), T0 + 9_999, &noon()), vec![(oid(1), T0 + 10)]);
    let instances = vec![instance(1, T0 + 10, 0, TaskStatus::Success)];
    assert!(due_tasks_at(&defs, &instances, T0 + 9_999, &noon()).is_empty());
}

#[test]
fn cron_fires_in_the_seconds_it_admits() {
    let t = task(1, Schedule::Cron(String::from("0 0,30 12 * * 1-5")), 0);
    let fires = |c: Calendar| next_due(&t, oid(1), &Vec::new(), 5_000, &c).is_some();
    assert!(fires(noon()));
    assert!(fires(Calendar { minute: 30, ..noon() }));
    assert!(!fires(Calendar { second: 1, ..noon() }));
    assert!(!fires(Calendar { minute: 29, ..noon() }));
    assert!(!fires(Calendar { hour: 13, ..noon() }));
    assert!(!fires(Calendar { weekday: 0, ..noon() }));
}

#[test]
fn cron_that_is_not_well_formed_never_fires() {
    for text in ["", "* * * * *", "* * * * * * *", "60 * * * * *", "a b c d e f", "*  * * * * *"] {
        let defs = vec![task(1, Schedule::Cron(String::from(text)), 0)];
        assert!(due_tasks_at(&defs, &Vec::new(), 5_000, &noon()).is_empty());
    }
}

#[test]
fn cron_tick_is_the_start_of_the_second() {
    let t = task(1, Schedule::Cron(every_second()), 0);
    assert_eq!(next_due(&t, oid(1), &Vec::new(), 12_345, &noon()), Some(12_000));
    assert_eq!(next_due(&t, oid(1), &Vec::new(), 12_000, &noon()), Some(12_000));
    assert_eq!(next_due(&t, oid(1), &Vec::new(), -1, &noon()), Some(-1_000));
    assert_eq!(next_due(&t, oid(1), &Vec::new(), -1_000, &noon()), Some(-1_000));
    assert_eq!(next_due(&t, oid(1), &Vec::new(), -1_001, &noon()), Some(-2_000));
    assert_eq!(next_due(&t, oid(1), &Vec::new(), i64::MAX, &noon()), Some(i64::MAX - 807));
    assert_eq!(next_due(&t, oid(1), &Vec::new(), i64::MIN, &noon()), None);
}

#[test]
fn cron_lists_a_second_once() {
    let defs = vec![task(1, Schedule::Cron(every_second()), 0)];
    let mut instances: Vec<TaskInstance> = Vec::new();
    assert_eq!(due_tasks_at(&defs, &instances, 12_345, &noon()), vec![(oid(1), 12_000)]);
    instances.push(instance(1, 12_000, 0, TaskStatus::Pending));
    assert!(due_tasks_at(&defs, &instances, 12_999, &noon()).is_empty());
    assert_eq!(due_tasks_at(&defs, &instances, 13_000, &noon()), vec![(oid(1), 13_000)]);
}

#[test]
fn disabled_deleted_and_unsaved_definitions_are_not_planned() {
    let mut off = task(1, Schedule::Once(0), 0);
    off.enabled = false;
    let mut gone = task(2, Schedule::Once(0), 0);
    gone.deleted_at = Some(1);
    let mut unsaved = task(3, Schedule::Once(0), 0);
    unsaved.id = None;
    let defs = vec![off, gone, unsaved, task(4, Schedule::Once(0), 0)];
    assert_eq!(due_tasks_at(&defs, &Vec::new(), 10, &noon()), vec![(oid(4), 0)]);
}

#[test]
fn due_tasks_keep_the_order_of_the_definitions() {
    let defs = vec![
        task(3, Schedule::Once(5), 0),
        task(1, Schedule::Interval(10), 0),
        task(2, Schedule::Once(500), 0),
        task(4, Schedule::Cron(every_second()), 0),
    ];
    assert_eq!(
        due_tasks_at(&defs, &Vec::new(), 105, &noon()),
        vec![(oid(3), 5), (oid(1), 100), (oid(4), 0)]
    );
}

#[test]
fn has_key_finds_task_and_tick() {
    let instances = vec![instance(1, 10, 0, TaskStatus::Pending), instance(2, 20, 0, TaskStatus::Failed)];
    assert!(has_key(&instances, oid(1), 10));
    assert!(has_key(&instances, oid(2), 20));
    assert!(!has_key(&instances, oid(1), 20));
    assert!(!has_key(&instances, oid(3), 10));
    assert!(!has_key(&Vec::new(), oid(1), 10));
}

#[test]
fn due_tasks_reads_the_calendar_in_utc() {
    let at = |text: &str| vec![task(1, Schedule::Cron(String::from(text)), 0)];
    let hit = at("20 13 22 14 11 2");
    assert_eq!(due_tasks(&hit, &Vec::new(), T0 + 321), vec![(oid(1), T0)]);
    assert!(due_tasks(&hit, &Vec::new(), T0 + 1_000).is_empty());
    assert!(due_tasks(&hit, &Vec::new(), T0 - 1).is_empty());
    assert_eq!(due_tasks(&hit, &Vec::new(), T0 + 7 * 86_400_000 * 52 + 86_400_000 * 2).len(), 0);
    for miss in [
        at("21 13 22 14 11 2"),
        at("20 12 22 14 11 2"),
        at("20 13 21 14 11 2"),
        at("20 13 22 15 11 2"),
        at("20 13 22 14 10 2"),
        at("20 13 22 14 11 3"),
    ] {
        assert!(due_tasks(&miss, &Vec::new(), T0).is_empty());
    }
    // the epoch itself: Thursday, 1 January 1970, 00:00:00
    let epoch = at("0 0 0 1 1 4");
    assert_eq!(due_tasks(&epoch, &Vec::new(), 0), vec![(oid(1), 0)]);
    // one millisecond earlier: Wednesday, 31 December 1969, 23:59:59
    let eve = at("59 59 23 31 12 3");
    assert_eq!(due_tasks(&eve, &Vec::new(), -1), vec![(oid(1), -1_000)]);
}

#[test]
fn due_tasks_beyond_the_calendar_lists_nothing() {
    let defs = vec![task(1, Schedule::Once(0), 0), task(2, Schedule::Cron(every_second()), 0)];
    assert!(due_tasks(&defs, &Vec::new(), i64::MAX).is_empty());
    assert!(due_tasks(&defs, &Vec::new(), i64::MIN).is_empty());
    assert_eq!(due_tasks(&defs, &Vec::new(), T0).len(), 2);
}

#[test]
fn ready_tasks_leave_out_the_ineligible() {
    let mut dependent = task(2, Schedule::Once(0), 0);
    dependent.dependency_ids = vec![oid(1)];
    let defs = vec![task(1, Schedule::Once(0), 0), dependent];
    // nothing ran yet: only the task without dependencies is ready
    assert_eq!(ready_tasks(&defs, &Vec::new(), 10, &noon()), vec![(oid(1), 0)]);
    assert_eq!(due_tasks_at(&defs, &Vec::new(), 10, &noon()).len(), 2);
    let mut instances = vec![instance(1, 0, 0, TaskStatus::Running)];
    assert!(ready_tasks(&defs, &instances, 10, &noon()).is_empty());
    instances[0].status = TaskStatus::Success;
    assert_eq!(ready_tasks(&defs, &instances, 10, &noon()), vec![(oid(2), 0)]);
    instances[0].status = TaskStatus::Failed;
    assert!(ready_tasks(&defs, &instances, 10, &noon()).is_empty());
}
