use rapidcron::resolver::{is_eligible, is_eligible_among, validate};
use rapidcron::types::{ObjectId, Schedule, Task, TaskInstance, TaskPayload, TaskStatus, TaskType};

fn oid(n: u64) -> ObjectId {
    ObjectId { head: 0, tail: n }
}

fn task(id: u64, deps: &[u64]) -> Task {
    Task {
        id: Some(oid(id)),
        name: format!("task-{}", id),
        description: None,
        dependency_ids: deps.iter().map(|d| oid(*d)).collect(),
        task_type: TaskType::Command,
        schedule: Schedule::Interval(60_000),
        enabled: true,
        payload: TaskPayload::Command { command: String::from("echo"), timeout_seconds: None },
        timeout_seconds: None,
        max_retries: None,
        created_at: 0,
        updated_at: 0,
        deleted_at: None,
    }
}

fn instance(task_id: u64, scheduled_time: i64, status: TaskStatus) -> TaskInstance {
    TaskInstance {
        id: None,
        task_id: oid(task_id),
        scheduled_time,
        status,
        executor_id: None,
        start_time: None,
        end_time: None,
        retry_count: 0,
        result: None,
        created_at: scheduled_time,
    }
}

fn is_rotation(found: &[ObjectId], cycle: &[ObjectId]) -> bool {
    found.len() == cycle.len()
        && (0..cycle.len()).any(|s| (0..cycle.len()).all(|i| found[i] == cycle[(s + i) % cycle.len()]))
}

#[test]
fn validate_accepts_empty_set() {
    assert!(validate(&Vec::new()).is_ok());
}

#[test]
fn validate_accepts_graph_without_cycle() {
    let defs = vec![task(1, &[]), task(2, &[1]), task(3, &[1, 2]), task(4, &[3, 2])];
    assert!(validate(&defs).is_ok());
}

#[test]
fn validate_rejects_self_dependency() {
    let defs = vec![task(1, &[]), task(2, &[2])];
    let err = validate(&defs).unwrap_err();
    assert_eq!(err.path, vec![oid(2)]);
}

#[test]
fn validate_rejects_two_node_cycle() {
    let defs = vec![task(1, &[2]), task(2, &[1])];
    let err = validate(&defs).unwrap_err();
    assert!(is_rotation(&err.path, &[oid(1), oid(2)]));
}

#[test]
fn validate_rejects_induced_multi_node_cycle() {
    // 1 -> 2 -> 3 -> 4 -> 2, with 5 hanging off acyclically
    let defs = vec![task(1, &[2]), task(2, &[3]), task(3, &[4]), task(4, &[2]), task(5, &[1])];
    let err = validate(&defs).unwrap_err();
    assert!(is_rotation(&err.path, &[oid(2), oid(3), oid(4)]));
}

#[test]
fn validate_path_follows_dependencies() {
    let defs = vec![task(7, &[9]), task(8, &[7]), task(9, &[8]), task(10, &[])];
    let err = validate(&defs).unwrap_err();
    let n = err.path.len();
    assert_eq!(n, 3);
    for i in 0..n {
        let from = defs.iter().find(|t| t.id == Some(err.path[i])).unwrap();
        assert!(from.dependency_ids.contains(&err.path[(i + 1) % n]));
    }
}

#[test]
fn validate_ignores_disabled_and_deleted_definitions() {
    let mut off = task(2, &[1]);
    off.enabled = false;
    assert!(validate(&vec![task(1, &[2]), off]).is_ok());

    let mut gone = task(2, &[1]);
    gone.deleted_at = Some(5);
    assert!(validate(&vec![task(1, &[2]), gone]).is_ok());
}

#[test]
fn validate_ignores_unknown_dependency() {
    assert!(validate(&vec![task(1, &[42])]).is_ok());
}

#[test]
fn validate_handles_deep_chain() {
    let mut defs: Vec<Task> = (1..=200u64).map(|i| task(i, &[i + 1])).collect();
    defs.push(task(201, &[]));
    assert!(validate(&defs).is_ok());
    defs[200] = task(201, &[1]);
    let err = validate(&defs).unwrap_err();
    assert_eq!(err.path.len(), 201);
}

#[test]
fn eligible_without_dependencies() {
    assert!(is_eligible(&task(1, &[]), &Vec::new(), 1_000));
}

#[test]
fn eligible_when_every_dependency_succeeded_recently() {
    let t = task(3, &[1, 2]);
    let latest = vec![
        instance(1, 950_000, TaskStatus::Success),
        instance(2, 990_000, TaskStatus::Success),
    ];
    assert!(is_eligible(&t, &latest, 1_000_000));
}

#[test]
fn not_eligible_when_history_is_missing() {
    let t = task(3, &[1, 2]);
    let latest = vec![instance(1, 990_000, TaskStatus::Success)];
    assert!(!is_eligible(&t, &latest, 1_000_000));
}

#[test]
fn not_eligible_when_a_dependency_failed() {
    let t = task(3, &[1, 2]);
    for bad in [TaskStatus::Failed, TaskStatus::Cancelled, TaskStatus::Running, TaskStatus::Pending] {
        let latest = vec![instance(1, 990_000, TaskStatus::Success), instance(2, 990_000, bad)];
        assert!(!is_eligible(&t, &latest, 1_000_000));
    }
}

#[test]
fn not_eligible_when_success_is_stale() {
    let t = task(3, &[1]);
    // one period is 60 s: scheduled exactly one period ago still counts
    assert!(is_eligible(&t, &vec![instance(1, 940_000, TaskStatus::Success)], 1_000_000));
    assert!(!is_eligible(&t, &vec![instance(1, 939_999, TaskStatus::Success)], 1_000_000));
}

#[test]
fn age_does_not_count_without_a_period() {
    let mut t = task(3, &[1]);
    t.schedule = Schedule::Once(5);
    assert!(is_eligible(&t, &vec![instance(1, 0, TaskStatus::Success)], 1_000_000_000));
}

#[test]
fn first_entry_of_a_task_counts() {
    let t = task(3, &[1]);
    let latest = vec![
        instance(1, 990_000, TaskStatus::Failed),
        instance(1, 995_000, TaskStatus::Success),
    ];
    assert!(!is_eligible(&t, &latest, 1_000_000));
}

#[test]
fn among_all_instances_the_most_recent_counts() {
    let t = task(3, &[1]);
    let history = vec![
        instance(1, 970_000, TaskStatus::Failed),
        instance(1, 990_000, TaskStatus::Success),
        instance(1, 980_000, TaskStatus::Failed),
    ];
    assert!(is_eligible_among(&t, &history, 1_000_000));
    let history = vec![
        instance(1, 970_000, TaskStatus::Success),
        instance(1, 990_000, TaskStatus::Failed),
    ];
    assert!(!is_eligible_among(&t, &history, 1_000_000));
    assert!(!is_eligible_among(&t, &Vec::new(), 1_000_000));
}

#[test]
fn eligibility_survives_extreme_clock() {
    let t = task(3, &[1]);
    let latest = vec![instance(1, i64::MIN, TaskStatus::Success)];
    assert!(is_eligible(&t, &latest, i64::MIN + 10));
    assert!(!is_eligible(&t, &latest, i64::MAX));
}
