//! What each filter admits, and the matches of a filter among stored
//! entries.

use crate::types::{
    ExecutionLog,
    ExecutionLogFilter,
    Task,
    TaskFilter,
    TaskInstance,
    TaskInstanceFilter,
};
use vstd::prelude::*;

verus! {

impl TaskFilter {
    /// The task agrees with every field of the filter that is set.
    pub open spec fn admits(self, task: Task) -> bool {
        &&& self.name matches Some(n) ==> task.name@ == n@
        &&& self.enabled matches Some(e) ==> task.enabled == e
        &&& self.task_type matches Some(t) ==> task.task_type == t
        &&& self.deleted matches Some(d) ==> (task.deleted_at is Some) == d
    }

    /// Whether the task agrees with every field of the filter that is set.
    pub fn matches(&self, task: &Task) -> (r: bool)
        ensures
            r == self.admits(*task),
    {
        let name_ok = match &self.name {
            Some(n) => task.name == *n,
            None => true,
        };
        let enabled_ok = match self.enabled {
            Some(e) => task.enabled == e,
            None => true,
        };
        let type_ok = match self.task_type {
            Some(t) => task.task_type == t,
            None => true,
        };
        let deleted_ok = match self.deleted {
            Some(d) => task.deleted_at.is_some() == d,
            None => true,
        };
        name_ok && enabled_ok && type_ok && deleted_ok
    }
}

impl TaskInstanceFilter {
    /// The instance agrees with every field of the filter that is set. A
    /// bound on the start time excludes an instance that has not started.
    pub open spec fn admits(self, inst: TaskInstance) -> bool {
        &&& self.task_id matches Some(t) ==> inst.task_id == t
        &&& self.status matches Some(s) ==> inst.status == s
        &&& self.executor_id matches Some(e) ==> (inst.executor_id matches Some(x) && x@ == e@)
        &&& self.start_after matches Some(a) ==> (inst.start_time matches Some(s) && s >= a)
        &&& self.start_before matches Some(b) ==> (inst.start_time matches Some(s) && s <= b)
    }

    /// Whether the instance agrees with every field of the filter that is
    /// set.
    pub fn matches(&self, inst: &TaskInstance) -> (r: bool)
        ensures
            r == self.admits(*inst),
    {
        let task_ok = match self.task_id {
            Some(t) => inst.task_id == t,
            None => true,
        };
        let status_ok = match self.status {
            Some(s) => inst.status == s,
            None => true,
        };
        let executor_ok = match &self.executor_id {
            Some(e) => match &inst.executor_id {
                Some(x) => *x == *e,
                None => false,
            },
            None => true,
        };
        let after_ok = match self.start_after {
            Some(a) => match inst.start_time {
                Some(s) => s >= a,
                None => false,
            },
            None => true,
        };
        let before_ok = match self.start_before {
            Some(b) => match inst.start_time {
                Some(s) => s <= b,
                None => false,
            },
            None => true,
        };
        task_ok && status_ok && executor_ok && after_ok && before_ok
    }
}

impl ExecutionLogFilter {
    /// The entry agrees with every field of the filter that is set.
    pub open spec fn admits(self, log: ExecutionLog) -> bool {
        &&& self.task_id matches Some(t) ==> log.task_id == t
        &&& self.status matches Some(s) ==> log.status == s
        &&& self.triggered_by matches Some(b) ==> log.triggered_by == b
        &&& self.end_after matches Some(a) ==> log.end_time >= a
        &&& self.end_before matches Some(b) ==> log.end_time <= b
    }

    /// Whether the entry agrees with every field of the filter that is
    /// set.
    pub fn matches(&self, log: &ExecutionLog) -> (r: bool)
        ensures
            r == self.admits(*log),
    {
        let task_ok = match self.task_id {
            Some(t) => log.task_id == t,
            None => true,
        };
        let status_ok = match self.status {
            Some(s) => log.status == s,
            None => true,
        };
        let trigger_ok = match self.triggered_by {
            Some(b) => log.triggered_by == b,
            None => true,
        };
        let after_ok = match self.end_after {
            Some(a) => log.end_time >= a,
            None => true,
        };
        let before_ok = match self.end_before {
            Some(b) => log.end_time <= b,
            None => true,
        };
        task_ok && status_ok && trigger_ok && after_ok && before_ok
    }
}

/// Those of the first `n` tasks that the filter admits, in their order.
pub open spec fn tasks_matching(tasks: Seq<Task>, filter: TaskFilter, n: int) -> Seq<Task>
    decreases n,
{
    if n <= 0 {
        Seq::empty()
    } else {
        let rest = tasks_matching(tasks, filter, n - 1);
        if filter.admits(tasks[n - 1]) {
            rest.push(tasks[n - 1])
        } else {
            rest
        }
    }
}

/// Those of the first `n` instances that the filter admits, in their
/// order.
pub open spec fn instances_matching(
    instances: Seq<TaskInstance>,
    filter: TaskInstanceFilter,
    n: int,
) -> Seq<TaskInstance>
    decreases n,
{
    if n <= 0 {
        Seq::empty()
    } else {
        let rest = instances_matching(instances, filter, n - 1);
        if filter.admits(instances[n - 1]) {
            rest.push(instances[n - 1])
        } else {
            rest
        }
    }
}

/// Those of the first `n` log entries that the filter admits, in their
/// order.
pub open spec fn logs_matching(logs: Seq<ExecutionLog>, filter: ExecutionLogFilter, n: int) -> Seq<
    ExecutionLog,
>
    decreases n,
{
    if n <= 0 {
        Seq::empty()
    } else {
        let rest = logs_matching(logs, filter, n - 1);
        if filter.admits(logs[n - 1]) {
            rest.push(logs[n - 1])
        } else {
            rest
        }
    }
}

} // verus!
