//! Laws of the scheduler that relate several of its operations, each
//! stated over the models that the operations' contracts use.

use crate::cron::Calendar;
use crate::engine::{after_settlement, settlement_owed, Settlement};
use crate::filters::tasks_matching;
use crate::lifecycle::BackoffPolicy;
use crate::planner::{candidate, due_tick, key_taken};
use crate::resolver::{
    depends,
    eligible_in,
    has_dependency_cycle,
    is_dependency_cycle,
    satisfies,
};
use crate::store::{
    consistent,
    deleted_task,
    has_task,
    is_logged,
    stored_instance,
    task_from,
    task_index,
    updated_task,
    StoreModel,
};
use crate::types::{
    CreateTaskRequest,
    ExecutionResult,
    ObjectId,
    Task,
    TaskFilter,
    TaskInstance,
    TaskStatus,
    Timestamp,
    UpdateTaskRequest,
};
use vstd::prelude::*;

verus! {

/// A definition that is enabled, not deleted, and lists its own id among
/// its dependencies is a cycle of one: validation refuses the set.
pub proof fn law_self_dependency_is_cycle(defs: Seq<Task>, i: int)
    requires
        0 <= i < defs.len(),
        defs[i].active(),
        defs[i].id matches Some(id) && defs[i].depends_on_id(id),
    ensures
        has_dependency_cycle(defs),
{
    let path = seq![i];
    assert(path[0] == i);
    assert(depends(defs, i, i));
    assert(is_dependency_cycle(defs, path));
}

/// Definitions without dependencies contain no cycle: validation accepts
/// the set.
pub proof fn law_no_dependencies_no_cycle(defs: Seq<Task>)
    requires
        forall|i: int| 0 <= i < defs.len() ==> (#[trigger] defs[i]).dependency_ids@.len() == 0,
    ensures
        !has_dependency_cycle(defs),
{
    if has_dependency_cycle(defs) {
        let path = choose|path: Seq<int>| is_dependency_cycle(defs, path);
        assert(depends(defs, path[0], path[crate::graph::next_pos(0, path.len() as int)]));
        assert(defs[path[0]].dependency_ids@.len() == 0);
    }
}

/// With every dependency satisfied the task is eligible.
pub proof fn law_satisfied_is_eligible(
    task: Task,
    latest: Map<ObjectId, TaskInstance>,
    now: Timestamp,
)
    requires
        forall|d: ObjectId|
            task.depends_on_id(d) ==> latest.dom().contains(d) && satisfies(task, latest[d], now),
    ensures
        eligible_in(task, latest, now),
{
    assert forall|i: int| 0 <= i < task.dependency_ids@.len() implies latest.dom().contains(
        #[trigger] task.dependency_ids@[i],
    ) && satisfies(task, latest[task.dependency_ids@[i]], now) by {
        assert(task.depends_on_id(task.dependency_ids@[i]));
    }
}

/// Taking away the latest instance of one dependency makes the task
/// ineligible, whatever the others are.
pub proof fn law_missing_dependency_blocks(
    task: Task,
    latest: Map<ObjectId, TaskInstance>,
    now: Timestamp,
    d: ObjectId,
)
    requires
        task.depends_on_id(d),
    ensures
        !eligible_in(task, latest.remove(d), now),
{
    let i = choose|i: int| 0 <= i < task.dependency_ids@.len() && task.dependency_ids@[i] == d;
    assert(!latest.remove(d).dom().contains(task.dependency_ids@[i]));
}

/// Replacing the latest instance of one dependency by one that did not
/// succeed makes the task ineligible, whatever the others are.
pub proof fn law_failed_dependency_blocks(
    task: Task,
    latest: Map<ObjectId, TaskInstance>,
    now: Timestamp,
    d: ObjectId,
    inst: TaskInstance,
)
    requires
        task.depends_on_id(d),
        inst.status != TaskStatus::Success,
    ensures
        !eligible_in(task, latest.insert(d, inst), now),
{
    let i = choose|i: int| 0 <= i < task.dependency_ids@.len() && task.dependency_ids@[i] == d;
    assert(latest.insert(d, inst)[task.dependency_ids@[i]] == inst);
}

/// In a consistent store, two instances for the same task and tick are
/// one and the same: at most one instance exists for any task and tick.
pub proof fn law_one_instance_per_tick(v: StoreModel, i: int, j: int)
    requires
        consistent(v),
        0 <= i < v.instances.len(),
        0 <= j < v.instances.len(),
        v.instances[i].task_id == v.instances[j].task_id,
        v.instances[i].scheduled_time == v.instances[j].scheduled_time,
    ensures
        i == j,
{
}

/// Once an instance was created for a task and tick, the tick is taken:
/// every further attempt to create one meets `DuplicateInstance`, and the
/// planner lists the tick no more.
pub proof fn law_created_tick_is_taken(
    instances: Seq<TaskInstance>,
    task: Task,
    id: ObjectId,
    tick: Timestamp,
    retry_count: i32,
    now: Timestamp,
    later: Timestamp,
    calendar: Calendar,
)
    requires
        task.id is Some,
    ensures
        key_taken(
            instances.push(stored_instance(id, task.id.unwrap(), tick, retry_count, now)),
            task.id.unwrap(),
            tick,
        ),
        due_tick(
            task,
            task.id.unwrap(),
            instances.push(stored_instance(id, task.id.unwrap(), tick, retry_count, now)),
            later,
            calendar,
        ) == Some(tick) ==> candidate(
            task,
            instances.push(stored_instance(id, task.id.unwrap(), tick, retry_count, now)),
            later,
            calendar,
        ) is None,
{
    let grown = instances.push(stored_instance(id, task.id.unwrap(), tick, retry_count, now));
    assert(grown[instances.len() as int].task_id == task.id.unwrap());
}

/// A failed instance whose retry count is below its task's limit has a
/// successor: pending, for the same task, with the retry count raised by
/// one, scheduled no earlier than the failure; for a failure that ended
/// at `now`, no earlier than `now`. At the limit, or with no limit set, it
/// has none.
pub proof fn law_retry_successor(inst: TaskInstance, task: Task, policy: BackoffPolicy, now: Timestamp)
    requires
        inst.status == TaskStatus::Failed,
    ensures
        inst.retry_count < task.retry_limit() ==> {
            let next = inst.successor(policy, now);
            &&& inst.retryable(task)
            &&& next.status == TaskStatus::Pending
            &&& next.task_id == inst.task_id
            &&& next.retry_count == inst.retry_count + 1
            &&& next.scheduled_time >= inst.retry_base(now)
            &&& inst.end_time == Some(now) ==> next.scheduled_time >= now
        },
        inst.retry_count >= task.retry_limit() ==> !inst.retryable(task),
{
    if inst.retry_count < task.retry_limit() && inst.retry_count >= 0 {
        match policy {
            BackoffPolicy::Linear(step) => {
                if step > 0 {
                    assert(step * (inst.retry_count + 1) >= 0) by (nonlinear_arith)
                        requires
                            step > 0,
                            inst.retry_count >= 0,
                    ;
                }
            },
            _ => {},
        }
    }
}

/// Settling a failed instance with retries left appends exactly one
/// instance, its successor, provided that the task is known, the
/// successor's tick is free and the store has two identifiers left.
/// Settling one that has used up its retries appends none.
pub proof fn law_failure_yields_one_retry(
    v: StoreModel,
    ids_left: nat,
    k: int,
    policy: BackoffPolicy,
    now: Timestamp,
    out: Settlement,
)
    requires
        0 <= k < v.instances.len(),
        v.instances[k].status == TaskStatus::Failed,
        has_task(v.tasks, v.instances[k].task_id),
        settlement_owed(v, ids_left, k, policy, now, out),
    ensures
        ({
            let inst = v.instances[k];
            let task = v.tasks[task_index(v.tasks, inst.task_id)];
            let next = inst.successor(policy, now);
            let after = after_settlement(v, k, policy, now, out).instances;
            &&& inst.retry_count < task.retry_limit() && ids_left >= 2 && !key_taken(
                v.instances,
                next.task_id,
                next.scheduled_time,
            ) ==> out.retry_id is Some && after == v.instances.push(
                stored_instance(
                    out.retry_id.unwrap(),
                    inst.task_id,
                    next.scheduled_time,
                    (inst.retry_count + 1) as i32,
                    now,
                ),
            ) && after.last().status == TaskStatus::Pending
            &&& inst.retry_count >= task.retry_limit() ==> out.retry_id is None && after
                == v.instances
        }),
{
}

/// Settling is idempotent: once an instance with an end time was settled
/// in a store that knew its task and had two identifiers to spare,
/// settling it again, at whatever time, writes no log entry and creates
/// no retry.
pub proof fn law_settling_twice_adds_nothing(
    v: StoreModel,
    ids_left: nat,
    k: int,
    policy: BackoffPolicy,
    now: Timestamp,
    out: Settlement,
    ids_left_later: nat,
    later: Timestamp,
    out_later: Settlement,
)
    requires
        0 <= k < v.instances.len(),
        v.instances[k].id is Some,
        v.instances[k].end_time is Some,
        has_task(v.tasks, v.instances[k].task_id),
        ids_left >= 2,
        settlement_owed(v, ids_left, k, policy, now, out),
        settlement_owed(
            after_settlement(v, k, policy, now, out),
            ids_left_later,
            k,
            policy,
            later,
            out_later,
        ),
    ensures
        out_later.retry_id is None,
        after_settlement(after_settlement(v, k, policy, now, out), k, policy, later, out_later)
            == after_settlement(v, k, policy, now, out),
{
    let inst = v.instances[k];
    let after = after_settlement(v, k, policy, now, out);
    let next = inst.successor(policy, now);
    assert(after.instances[k] == inst);
    assert(inst.successor(policy, later).scheduled_time == next.scheduled_time);
    assert(is_logged(after.logs, inst.id.unwrap())) by {
        if !is_logged(v.logs, inst.id.unwrap()) {
            assert(out.log_id is Some);
            assert(after.logs[v.logs.len() as int].instance_id == inst.id.unwrap());
        } else {
            let j = choose|j: int|
                0 <= j < v.logs.len() && (#[trigger] v.logs[j]).instance_id == inst.id.unwrap();
            assert(after.logs[j].instance_id == inst.id.unwrap());
        }
    }
    if inst.retryable(v.tasks[task_index(v.tasks, inst.task_id)]) {
        assert(key_taken(after.instances, next.task_id, next.scheduled_time)) by {
            if out.retry_id is Some {
                assert(after.instances[v.instances.len() as int].task_id == next.task_id);
            } else {
                let j = choose|j: int|
                    0 <= j < v.instances.len() && (#[trigger] v.instances[j]).task_id == next.task_id
                        && v.instances[j].scheduled_time == next.scheduled_time;
                assert(after.instances[j].task_id == next.task_id);
            }
        }
    }
}

/// A running instance that timed out is failed for good: once the forced
/// failure stands, no report applies any more, whatever it says, so that
/// a report that arrives late is discarded and the instance stays failed.
pub proof fn law_timeout_outlasts_report(
    inst: TaskInstance,
    timeout_seconds: Option<i32>,
    now: Timestamp,
    result: ExecutionResult,
    late: TaskStatus,
)
    requires
        inst.overdue(timeout_seconds, now),
    ensures
        inst.reported(TaskStatus::Failed, result, now).status == TaskStatus::Failed,
        inst.reported(TaskStatus::Failed, result, now).status.terminal(),
        !inst.reported(TaskStatus::Failed, result, now).accepts_report(late),
{
}

/// What ended stays ended: no claim, report or cancellation applies to an
/// instance in a terminal state.
pub proof fn law_terminal_is_sticky(inst: TaskInstance, status: TaskStatus)
    requires
        inst.status.terminal(),
    ensures
        inst.status != TaskStatus::Pending,
        !inst.accepts_report(status),
{
}

/// A task is among the matches of a filter exactly when it is stored and
/// the filter admits it.
pub proof fn law_find_lists_admitted(tasks: Seq<Task>, filter: TaskFilter, n: int, t: Task)
    requires
        0 <= n <= tasks.len(),
    ensures
        tasks_matching(tasks, filter, n).contains(t) <==> exists|k: int|
            0 <= k < n && #[trigger] tasks[k] == t && filter.admits(t),
    decreases n,
{
    if n > 0 {
        law_find_lists_admitted(tasks, filter, n - 1, t);
        let rest = tasks_matching(tasks, filter, n - 1);
        let all = tasks_matching(tasks, filter, n);
        if filter.admits(tasks[n - 1]) {
            assert(all == rest.push(tasks[n - 1]));
            if all.contains(t) {
                let p = choose|p: int| 0 <= p < all.len() && all[p] == t;
                if p < rest.len() {
                    assert(rest[p] == t);
                    assert(rest.contains(t));
                } else {
                    assert(tasks[n - 1] == t);
                }
            }
            if exists|k: int| 0 <= k < n && #[trigger] tasks[k] == t && filter.admits(t) {
                let k = choose|k: int| 0 <= k < n && #[trigger] tasks[k] == t && filter.admits(t);
                if k == n - 1 {
                    assert(all[rest.len() as int] == t);
                } else {
                    assert(rest.contains(t));
                    let p = choose|p: int| 0 <= p < rest.len() && rest[p] == t;
                    assert(all[p] == t);
                }
            }
        } else {
            if exists|k: int| 0 <= k < n && #[trigger] tasks[k] == t && filter.admits(t) {
                let k = choose|k: int| 0 <= k < n && #[trigger] tasks[k] == t && filter.admits(t);
                assert(k != n - 1);
            }
        }
    } else {
        assert(tasks_matching(tasks, filter, n) =~= Seq::<Task>::empty());
    }
}

/// Creating a task, updating fields other than its dependencies, and
/// soft-deleting it keeps what was not asked to change: the id, the time
/// of creation and the dependencies throughout, every field that the
/// update leaves unset, and after the deletion everything but the two
/// time stamps that it sets.
pub proof fn law_round_trip_keeps_fields(
    req: CreateTaskRequest,
    id: ObjectId,
    created_at: Timestamp,
    update: UpdateTaskRequest,
    updated_at: Timestamp,
    deleted_at: Timestamp,
)
    requires
        update.dependency_ids is None,
    ensures
        ({
            let made = task_from(req, id, created_at);
            let changed = updated_task(made, update, updated_at);
            let gone = deleted_task(changed, deleted_at);
            &&& changed.id == Some(id) && gone.id == Some(id)
            &&& changed.created_at == created_at && gone.created_at == created_at
            &&& changed.dependency_ids == req.dependency_ids
            &&& changed.task_type == req.task_type
            &&& changed.deleted_at is None
            &&& changed.updated_at == updated_at
            &&& update.name is None ==> changed.name == req.name
            &&& update.description is None ==> changed.description == req.description
            &&& update.schedule is None ==> changed.schedule == req.schedule
            &&& update.enabled is None ==> changed.enabled == req.enabled
            &&& update.payload is None ==> changed.payload == req.payload
            &&& update.timeout_seconds is None ==> changed.timeout_seconds == req.timeout_seconds
            &&& update.max_retries is None ==> changed.max_retries == req.max_retries
            &&& gone == Task { deleted_at: Some(deleted_at), updated_at: deleted_at, ..changed }
        }),
{
}

/// A search shows a task until it is soft-deleted and, unless deleted
/// tasks are asked for, not after: a filter that asks for tasks that are
/// not deleted, as the default filter does, admits the task as created and
/// as updated but not as deleted; one that asks for deleted tasks admits
/// it only as deleted; one that does not ask admits all three alike.
pub proof fn law_round_trip_shows_in_find(
    req: CreateTaskRequest,
    id: ObjectId,
    created_at: Timestamp,
    update: UpdateTaskRequest,
    updated_at: Timestamp,
    deleted_at: Timestamp,
)
    ensures
        ({
            let made = task_from(req, id, created_at);
            let changed = updated_task(made, update, updated_at);
            let gone = deleted_task(changed, deleted_at);
            let live = TaskFilter { name: None, enabled: None, task_type: None, deleted: Some(false) };
            let dead = TaskFilter { name: None, enabled: None, task_type: None, deleted: Some(true) };
            let any = TaskFilter { name: None, enabled: None, task_type: None, deleted: None };
            &&& live.admits(made) && live.admits(changed) && !live.admits(gone)
            &&& !dead.admits(made) && !dead.admits(changed) && dead.admits(gone)
            &&& any.admits(made) && any.admits(changed) && any.admits(gone)
        }),
{
}

} // verus!
