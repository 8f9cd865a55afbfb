//! The execution log in the store: one entry per finished instance,
//! written once, with search, correction and purge.

use super::instances::{has_instance, instance_index};
use super::tasks::{has_task, task_index};
use super::{issued, lemma_appended, DataStore, StoreError};
use crate::filters::logs_matching;
use crate::lifecycle::clamp_timestamp;
use crate::types::{
    ExecutionLog,
    ExecutionLogFilter,
    ObjectId,
    TaskInstance,
    Timestamp,
    TriggeredBy,
};
use vstd::prelude::*;

verus! {

/// Some log entry has the id.
pub open spec fn has_log(logs: Seq<ExecutionLog>, id: ObjectId) -> bool {
    exists|k: int| 0 <= k < logs.len() && (#[trigger] logs[k]).id == Some(id)
}

/// Position of the log entry with the id, where there is one.
pub open spec fn log_index(logs: Seq<ExecutionLog>, id: ObjectId) -> int {
    choose|k: int| 0 <= k < logs.len() && (#[trigger] logs[k]).id == Some(id)
}

/// Some log entry records the instance.
pub open spec fn is_logged(logs: Seq<ExecutionLog>, instance_id: ObjectId) -> bool {
    exists|k: int| 0 <= k < logs.len() && (#[trigger] logs[k]).instance_id == instance_id
}

/// Position of the log entry that records the instance, where there is
/// one.
pub open spec fn record_index(logs: Seq<ExecutionLog>, instance_id: ObjectId) -> int {
    choose|k: int| 0 <= k < logs.len() && (#[trigger] logs[k]).instance_id == instance_id
}

/// When the instance ended; an instance that bears no end time counts as
/// ended at its tick.
pub open spec fn ended_at(inst: TaskInstance) -> Timestamp {
    match inst.end_time {
        Some(e) => e,
        None => inst.scheduled_time,
    }
}

/// Milliseconds from start to end, as far as a 64-bit number holds them;
/// zero for an instance that never started.
pub open spec fn duration_of(inst: TaskInstance) -> i64 {
    match inst.start_time {
        Some(s) => clamp_timestamp(ended_at(inst) - s),
        None => 0,
    }
}

/// The log entry for a finished instance, under the id `id` and with the
/// name that its task has at the time.
pub open spec fn log_of(
    inst: TaskInstance,
    task_name: String,
    id: ObjectId,
    triggered_by: TriggeredBy,
) -> ExecutionLog {
    ExecutionLog {
        id: Some(id),
        task_id: inst.task_id,
        task_name,
        instance_id: inst.id.unwrap(),
        scheduled_time: inst.scheduled_time,
        start_time: inst.start_time,
        end_time: ended_at(inst),
        status: inst.status,
        duration_ms: duration_of(inst),
        output_summary: match inst.result {
            Some(r) => r.output,
            None => None,
        },
        error_message: match inst.result {
            Some(r) => r.error,
            None => None,
        },
        triggered_by,
    }
}

/// The log entry after a correction of its two texts.
pub open spec fn corrected_log(
    log: ExecutionLog,
    output_summary: Option<String>,
    error_message: Option<String>,
) -> ExecutionLog {
    ExecutionLog { output_summary, error_message, ..log }
}

/// A store stays well-formed when its log entries change but keep their
/// ids and stay one per instance.
proof fn lemma_logs_changed(before: DataStore, after: DataStore)
    requires
        before.wf(),
        after.tasks@ == before.tasks@,
        after.instances@ == before.instances@,
        after.next_id == before.next_id,
        forall|i: int|
            0 <= i < after.logs@.len() ==> exists|j: int|
                0 <= j < before.logs@.len() && before.logs@[j].id == (#[trigger] after.logs@[i]).id,
        forall|i: int, j: int|
            0 <= i < after.logs@.len() && 0 <= j < after.logs@.len() && i != j ==> (
            #[trigger] after.logs@[i]).id != (#[trigger] after.logs@[j]).id && after.logs@[i].instance_id
                != after.logs@[j].instance_id,
    ensures
        after.wf(),
{
    assert forall|i: int| 0 <= i < after.logs@.len() implies issued(
        #[trigger] after.logs@[i].id,
        after.next_id,
    ) by {
        let j = choose|j: int| 0 <= j < before.logs@.len() && before.logs@[j].id == after.logs@[i].id;
        assert(issued(before.logs@[j].id, before.next_id));
    }
    assert forall|i: int| 0 <= i < after.tasks@.len() implies issued(
        #[trigger] after.tasks@[i].id,
        after.next_id,
    ) by {
        assert(issued(before.tasks@[i].id, before.next_id));
    }
    assert forall|i: int| 0 <= i < after.instances@.len() implies issued(
        #[trigger] after.instances@[i].id,
        after.next_id,
    ) by {
        assert(issued(before.instances@[i].id, before.next_id));
    }
}

impl DataStore {
    /// Position of the log entry with the given id.
    fn log_position(&self, id: ObjectId) -> (r: Option<usize>)
        ensures
            r matches Some(k) ==> k < self.logs@.len() && self.logs@[k as int].id == Some(id),
            r is None ==> forall|k: int|
                0 <= k < self.logs@.len() ==> (#[trigger] self.logs@[k]).id != Some(id),
    {
        let mut k: usize = 0;
        while k < self.logs.len()
            invariant
                k <= self.logs.len(),
                forall|j: int| 0 <= j < k ==> (#[trigger] self.logs@[j]).id != Some(id),
            decreases self.logs.len() - k,
        {
            if self.logs[k].id == Some(id) {
                return Some(k);
            }
            k += 1;
        }
        None
    }

    /// Position of the log entry with the given id, as the contracts name
    /// it.
    fn log_slot(&self, id: ObjectId) -> (r: Option<usize>)
        requires
            self.wf(),
        ensures
            r is Some <==> has_log(self.logs@, id),
            r matches Some(k) ==> k == log_index(self.logs@, id) && k < self.logs@.len()
                && self.logs@[k as int].id == Some(id),
    {
        match self.log_position(id) {
            Some(k) => {
                assert(log_index(self.logs@, id) == k) by {
                    let c = log_index(self.logs@, id);
                    if c != k {
                        assert(self.logs@[c].id != self.logs@[k as int].id);
                    }
                }
                Some(k)
            },
            None => None,
        }
    }

    /// Position of the log entry that records the given instance.
    fn record_slot(&self, instance_id: ObjectId) -> (r: Option<usize>)
        requires
            self.wf(),
        ensures
            r is Some <==> is_logged(self.logs@, instance_id),
            r matches Some(k) ==> k == record_index(self.logs@, instance_id) && k < self.logs@.len()
                && self.logs@[k as int].instance_id == instance_id,
    {
        let mut k: usize = 0;
        while k < self.logs.len()
            invariant
                self.wf(),
                k <= self.logs.len(),
                forall|j: int| 0 <= j < k ==> (#[trigger] self.logs@[j]).instance_id != instance_id,
            decreases self.logs.len() - k,
        {
            if self.logs[k].instance_id == instance_id {
                assert(record_index(self.logs@, instance_id) == k) by {
                    let c = record_index(self.logs@, instance_id);
                    if c != k {
                        assert(self.logs@[c].instance_id != self.logs@[k as int].instance_id);
                    }
                }
                return Some(k);
            }
            k += 1;
        }
        None
    }

    /// Writes the log entry of a finished instance and returns its id.
    /// The entry takes the task's name as it is now, so that it stays
    /// readable when the task is renamed or deleted later.
    ///
    /// Recording an instance a second time writes nothing and returns the
    /// id of the entry that exists. Nothing is written either if the task
    /// of the instance is unknown, or if no identifier is left.
    pub fn record(&mut self, instance_id: ObjectId, triggered_by: TriggeredBy) -> (res: Result<
        ObjectId,
        StoreError,
    >)
        requires
            old(self).wf(),
            has_instance(old(self)@.instances, instance_id),
            old(self)@.instances[instance_index(old(self)@.instances, instance_id)].status.terminal(),
        ensures
            final(self).wf(),
            final(self).ids_left() == if res is Ok && !is_logged(old(self)@.logs, instance_id) {
                old(self).ids_left() - 1
            } else {
                old(self).ids_left() as int
            },
            final(self)@.tasks == old(self)@.tasks,
            final(self)@.instances == old(self)@.instances,
            res is Err ==> final(self)@ == old(self)@,
            ({
                let inst = old(self)@.instances[instance_index(old(self)@.instances, instance_id)];
                if is_logged(old(self)@.logs, instance_id) {
                    res == Ok::<ObjectId, StoreError>(
                        old(self)@.logs[record_index(old(self)@.logs, instance_id)].id.unwrap(),
                    ) && final(self)@ == old(self)@
                } else if !has_task(old(self)@.tasks, inst.task_id) {
                    res matches Err(StoreError::NotFound)
                } else if old(self).exhausted() {
                    res matches Err(StoreError::Exhausted)
                } else {
                    res == Ok::<ObjectId, StoreError>(old(self).upcoming_id()) && final(self)@.logs
                        == old(self)@.logs.push(
                        log_of(
                            inst,
                            old(self)@.tasks[task_index(old(self)@.tasks, inst.task_id)].name,
                            old(self).upcoming_id(),
                            triggered_by,
                        ),
                    )
                }
            }),
    {
        let k = match self.instance_slot(instance_id) {
            Some(k) => k,
            None => {
                return Err(StoreError::NotFound);
            },
        };
        match self.record_slot(instance_id) {
            Some(j) => {
                return match self.logs[j].id {
                    Some(id) => Ok(id),
                    None => Err(StoreError::NotFound),
                };
            },
            None => {},
        }
        let inst = &self.instances[k];
        let task_name = match self.get_task(inst.task_id) {
            Some(t) => t.name.clone(),
            None => {
                return Err(StoreError::NotFound);
            },
        };
        let end_time = match inst.end_time {
            Some(e) => e,
            None => inst.scheduled_time,
        };
        let duration_ms: i64 = match inst.start_time {
            Some(s) => {
                let d: i128 = end_time as i128 - s as i128;
                if d > i64::MAX as i128 {
                    i64::MAX
                } else if d < i64::MIN as i128 {
                    i64::MIN
                } else {
                    d as i64
                }
            },
            None => 0,
        };
        let output_summary = match &inst.result {
            Some(r) => match &r.output {
                Some(o) => Some(o.clone()),
                None => None,
            },
            None => None,
        };
        let error_message = match &inst.result {
            Some(r) => match &r.error {
                Some(m) => Some(m.clone()),
                None => None,
            },
            None => None,
        };
        let task_id = inst.task_id;
        let scheduled_time = inst.scheduled_time;
        let start_time = inst.start_time;
        let status = inst.status;
        let ghost before = *self;
        let id = match self.fresh_id() {
            Some(id) => id,
            None => {
                return Err(StoreError::Exhausted);
            },
        };
        let log = ExecutionLog {
            id: Some(id),
            task_id,
            task_name,
            instance_id,
            scheduled_time,
            start_time,
            end_time,
            status,
            duration_ms,
            output_summary,
            error_message,
            triggered_by,
        };
        self.logs.push(log);
        proof {
            assert(self.logs@.take(before.logs@.len() as int) =~= before.logs@);
            lemma_appended(before, *self);
        }
        Ok(id)
    }

    /// The log entry with the given id.
    pub fn get_execution_log(&self, id: ObjectId) -> (r: Option<&ExecutionLog>)
        requires
            self.wf(),
        ensures
            r is Some <==> has_log(self@.logs, id),
            r matches Some(l) ==> *l == self@.logs[log_index(self@.logs, id)] && l.id == Some(id),
    {
        match self.log_slot(id) {
            Some(k) => Some(&self.logs[k]),
            None => None,
        }
    }

    /// The log entries that the filter admits, in the order in which they
    /// were written.
    pub fn find_execution_logs(&self, filter: &ExecutionLogFilter) -> (found: Vec<&ExecutionLog>)
        ensures
            found@.len() == logs_matching(self@.logs, *filter, self@.logs.len() as int).len(),
            forall|i: int|
                0 <= i < found@.len() ==> *(#[trigger] found@[i]) == logs_matching(
                    self@.logs,
                    *filter,
                    self@.logs.len() as int,
                )[i],
    {
        let mut found: Vec<&ExecutionLog> = Vec::new();
        let mut k: usize = 0;
        while k < self.logs.len()
            invariant
                k <= self.logs.len(),
                found@.len() == logs_matching(self.logs@, *filter, k as int).len(),
                forall|i: int|
                    0 <= i < found@.len() ==> *(#[trigger] found@[i]) == logs_matching(
                        self.logs@,
                        *filter,
                        k as int,
                    )[i],
            decreases self.logs.len() - k,
        {
            if filter.matches(&self.logs[k]) {
                found.push(&self.logs[k]);
            }
            k += 1;
        }
        found
    }

    /// Corrects the two texts of a log entry; an administrative act,
    /// apart from the way entries are written. Everything else in the
    /// entry stays. Returns whether an entry had the id.
    pub fn update_execution_log(
        &mut self,
        id: ObjectId,
        output_summary: Option<String>,
        error_message: Option<String>,
    ) -> (updated: bool)
        requires
            old(self).wf(),
        ensures
            final(self).wf(),
            final(self).ids_left() == old(self).ids_left(),
            final(self)@.tasks == old(self)@.tasks,
            final(self)@.instances == old(self)@.instances,
            updated == has_log(old(self)@.logs, id),
            !updated ==> final(self)@ == old(self)@,
            updated ==> final(self)@.logs == old(self)@.logs.update(
                log_index(old(self)@.logs, id),
                corrected_log(
                    old(self)@.logs[log_index(old(self)@.logs, id)],
                    output_summary,
                    error_message,
                ),
            ),
    {
        match self.log_slot(id) {
            Some(k) => {
                let ghost before = *self;
                let log = &mut self.logs[k];
                log.output_summary = output_summary;
                log.error_message = error_message;
                proof {
                    assert forall|i: int| 0 <= i < self.logs@.len() implies exists|j: int|
                        0 <= j < before.logs@.len() && before.logs@[j].id == (
                        #[trigger] self.logs@[i]).id by {
                        assert(before.logs@[i].id == self.logs@[i].id);
                    }
                    assert forall|i: int, j: int|
                        0 <= i < self.logs@.len() && 0 <= j < self.logs@.len() && i != j implies (
                    #[trigger] self.logs@[i]).id != (#[trigger] self.logs@[j]).id
                        && self.logs@[i].instance_id != self.logs@[j].instance_id by {
                        assert(before.logs@[i].id != before.logs@[j].id);
                    }
                    lemma_logs_changed(before, *self);
                }
                true
            },
            None => false,
        }
    }

    /// Removes a log entry for good; an administrative purge. Returns
    /// whether an entry had the id.
    pub fn delete_execution_log(&mut self, id: ObjectId) -> (deleted: bool)
        requires
            old(self).wf(),
        ensures
            final(self).wf(),
            final(self).ids_left() == old(self).ids_left(),
            final(self)@.tasks == old(self)@.tasks,
            final(self)@.instances == old(self)@.instances,
            deleted == has_log(old(self)@.logs, id),
            !deleted ==> final(self)@ == old(self)@,
            deleted ==> final(self)@.logs == old(self)@.logs.remove(log_index(old(self)@.logs, id)),
    {
        match self.log_slot(id) {
            Some(k) => {
                let ghost before = *self;
                self.logs.remove(k);
                proof {
                    assert forall|i: int| 0 <= i < self.logs@.len() implies exists|j: int|
                        0 <= j < before.logs@.len() && before.logs@[j].id == (
                        #[trigger] self.logs@[i]).id by {
                        let j = if i < k {
                            i
                        } else {
                            i + 1
                        };
                        assert(before.logs@[j].id == self.logs@[i].id);
                    }
                    assert forall|i: int, j: int|
                        0 <= i < self.logs@.len() && 0 <= j < self.logs@.len() && i != j implies (
                    #[trigger] self.logs@[i]).id != (#[trigger] self.logs@[j]).id
                        && self.logs@[i].instance_id != self.logs@[j].instance_id by {
                        let i0 = if i < k {
                            i
                        } else {
                            i + 1
                        };
                        let j0 = if j < k {
                            j
                        } else {
                            j + 1
                        };
                        assert(before.logs@[i0].id != before.logs@[j0].id);
                    }
                    lemma_logs_changed(before, *self);
                }
                true
            },
            None => false,
        }
    }
}

} // verus!
