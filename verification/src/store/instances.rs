//! The instances in the store: creation, one per task and tick, search,
//! purge, and the transitions of their life cycle.

use super::tasks::{has_task, task_index};
use super::{issued, lemma_appended, single_flight, DataStore, StoreError};
use crate::filters::instances_matching;
use crate::lifecycle::{timeout_text, ExecutionError};
use crate::planner::{has_key, key_taken};
use crate::types::{
    ExecutionResult,
    ObjectId,
    Task,
    TaskInstance,
    TaskInstanceFilter,
    TaskStatus,
    Timestamp,
};
use vstd::prelude::*;

verus! {

/// Some instance has the id.
pub open spec fn has_instance(instances: Seq<TaskInstance>, id: ObjectId) -> bool {
    exists|k: int| 0 <= k < instances.len() && (#[trigger] instances[k]).id == Some(id)
}

/// Position of the instance with the id, where there is one.
pub open spec fn instance_index(instances: Seq<TaskInstance>, id: ObjectId) -> int {
    choose|k: int| 0 <= k < instances.len() && (#[trigger] instances[k]).id == Some(id)
}

/// The pending instance that the store creates under the id `id`.
pub open spec fn stored_instance(
    id: ObjectId,
    task_id: ObjectId,
    scheduled_time: Timestamp,
    retry_count: i32,
    now: Timestamp,
) -> TaskInstance {
    TaskInstance { id: Some(id), ..TaskInstance::pending(task_id, scheduled_time, retry_count, now) }
}

/// The timeout that the task of an instance sets, if the task is known
/// and sets one.
pub open spec fn timeout_of(tasks: Seq<Task>, task_id: ObjectId) -> Option<i32> {
    if has_task(tasks, task_id) {
        tasks[task_index(tasks, task_id)].timeout_seconds
    } else {
        None
    }
}

/// A store stays well-formed when its instances change but keep their
/// ids and stay one per task and tick.
proof fn lemma_instances_changed(before: DataStore, after: DataStore)
    requires
        before.wf(),
        after.tasks@ == before.tasks@,
        after.logs@ == before.logs@,
        after.next_id == before.next_id,
        single_flight(after.instances@),
        forall|i: int|
            0 <= i < after.instances@.len() ==> exists|j: int|
                0 <= j < before.instances@.len() && before.instances@[j].id == (
                #[trigger] after.instances@[i]).id,
        forall|i: int, j: int|
            0 <= i < after.instances@.len() && 0 <= j < after.instances@.len() && i != j ==> (
            #[trigger] after.instances@[i]).id != (#[trigger] after.instances@[j]).id,
    ensures
        after.wf(),
{
    assert forall|i: int| 0 <= i < after.instances@.len() implies issued(
        #[trigger] after.instances@[i].id,
        after.next_id,
    ) by {
        let j = choose|j: int|
            0 <= j < before.instances@.len() && before.instances@[j].id == after.instances@[i].id;
        assert(issued(before.instances@[j].id, before.next_id));
    }
    assert forall|i: int| 0 <= i < after.tasks@.len() implies issued(
        #[trigger] after.tasks@[i].id,
        after.next_id,
    ) by {
        assert(issued(before.tasks@[i].id, before.next_id));
    }
    assert forall|i: int| 0 <= i < after.logs@.len() implies issued(
        #[trigger] after.logs@[i].id,
        after.next_id,
    ) by {
        assert(issued(before.logs@[i].id, before.next_id));
    }
}

/// A store stays well-formed when one instance is replaced by one with
/// the same id, task and tick.
proof fn lemma_instance_updated(before: DataStore, after: DataStore, k: int)
    requires
        before.wf(),
        0 <= k < before.instances@.len(),
        after.tasks@ == before.tasks@,
        after.logs@ == before.logs@,
        after.next_id == before.next_id,
        after.instances@ == before.instances@.update(k, after.instances@[k]),
        after.instances@.len() == before.instances@.len(),
        after.instances@[k].id == before.instances@[k].id,
        after.instances@[k].task_id == before.instances@[k].task_id,
        after.instances@[k].scheduled_time == before.instances@[k].scheduled_time,
    ensures
        after.wf(),
{
    assert forall|i: int, j: int|
        0 <= i < after.instances@.len() && 0 <= j < after.instances@.len() && i != j implies !((
    #[trigger] after.instances@[i]).task_id == (#[trigger] after.instances@[j]).task_id
        && after.instances@[i].scheduled_time == after.instances@[j].scheduled_time) by {
        assert(!(before.instances@[i].task_id == before.instances@[j].task_id
            && before.instances@[i].scheduled_time == before.instances@[j].scheduled_time));
    }
    assert forall|i: int|
        0 <= i < after.instances@.len() implies exists|j: int|
        0 <= j < before.instances@.len() && before.instances@[j].id == (
        #[trigger] after.instances@[i]).id by {
        assert(before.instances@[i].id == after.instances@[i].id);
    }
    assert forall|i: int, j: int|
        0 <= i < after.instances@.len() && 0 <= j < after.instances@.len() && i != j implies (
    #[trigger] after.instances@[i]).id != (#[trigger] after.instances@[j]).id by {
        assert(before.instances@[i].id != before.instances@[j].id);
    }
    lemma_instances_changed(before, after);
}

impl DataStore {
    /// Position of the instance with the given id.
    fn instance_position(&self, id: ObjectId) -> (r: Option<usize>)
        ensures
            r matches Some(k) ==> k < self.instances@.len() && self.instances@[k as int].id == Some(
                id,
            ),
            r is None ==> forall|k: int|
                0 <= k < self.instances@.len() ==> (#[trigger] self.instances@[k]).id != Some(id),
    {
        let mut k: usize = 0;
        while k < self.instances.len()
            invariant
                k <= self.instances.len(),
                forall|j: int| 0 <= j < k ==> (#[trigger] self.instances@[j]).id != Some(id),
            decreases self.instances.len() - k,
        {
            if self.instances[k].id == Some(id) {
                return Some(k);
            }
            k += 1;
        }
        None
    }

    /// Creates the pending instance of a task for a tick, noting `now` as
    /// the time of creation.
    ///
    /// If an instance exists already for that task and tick, the store is
    /// left as it is and the answer is `DuplicateInstance`: whoever asked
    /// has what it wanted. Nothing is created either if no identifier is
    /// left.
    pub fn create_task_instance(
        &mut self,
        task_id: ObjectId,
        scheduled_time: Timestamp,
        retry_count: i32,
        now: Timestamp,
    ) -> (res: Result<ObjectId, StoreError>)
        requires
            old(self).wf(),
        ensures
            final(self).wf(),
            final(self).ids_left() == if res is Ok {
                old(self).ids_left() - 1
            } else {
                old(self).ids_left() as int
            },
            final(self)@.tasks == old(self)@.tasks,
            final(self)@.logs == old(self)@.logs,
            res is Err ==> final(self)@ == old(self)@,
            if key_taken(old(self)@.instances, task_id, scheduled_time) {
                res matches Err(StoreError::DuplicateInstance)
            } else if old(self).exhausted() {
                res matches Err(StoreError::Exhausted)
            } else {
                res == Ok::<ObjectId, StoreError>(old(self).upcoming_id()) && final(self)@.instances
                    == old(self)@.instances.push(
                    stored_instance(
                        old(self).upcoming_id(),
                        task_id,
                        scheduled_time,
                        retry_count,
                        now,
                    ),
                )
            },
    {
        if has_key(&self.instances, task_id, scheduled_time) {
            return Err(StoreError::DuplicateInstance);
        }
        let ghost before = *self;
        let id = match self.fresh_id() {
            Some(id) => id,
            None => {
                return Err(StoreError::Exhausted);
            },
        };
        let mut inst = TaskInstance::new_pending(task_id, scheduled_time, retry_count, now);
        inst.id = Some(id);
        self.instances.push(inst);
        proof {
            assert(self.instances@.take(before.instances@.len() as int) =~= before.instances@);
            lemma_appended(before, *self);
        }
        Ok(id)
    }

    /// The instance with the given id.
    pub fn get_task_instance(&self, id: ObjectId) -> (r: Option<&TaskInstance>)
        requires
            self.wf(),
        ensures
            r is Some <==> has_instance(self@.instances, id),
            r matches Some(i) ==> *i == self@.instances[instance_index(self@.instances, id)] && i.id
                == Some(id),
    {
        match self.instance_slot(id) {
            Some(k) => Some(&self.instances[k]),
            None => None,
        }
    }

    /// Position of the instance with the given id, as the contracts name
    /// it.
    pub(super) fn instance_slot(&self, id: ObjectId) -> (r: Option<usize>)
        requires
            self.wf(),
        ensures
            r is Some <==> has_instance(self.instances@, id),
            r matches Some(k) ==> k == instance_index(self.instances@, id) && k
                < self.instances@.len() && self.instances@[k as int].id == Some(id),
    {
        match self.instance_position(id) {
            Some(k) => {
                assert(instance_index(self.instances@, id) == k) by {
                    let c = instance_index(self.instances@, id);
                    if c != k {
                        assert(self.instances@[c].id != self.instances@[k as int].id);
                    }
                }
                Some(k)
            },
            None => None,
        }
    }

    /// The instances that the filter admits, in the order of their
    /// creation.
    pub fn find_task_instances(&self, filter: &TaskInstanceFilter) -> (found: Vec<&TaskInstance>)
        ensures
            found@.len() == instances_matching(
                self@.instances,
                *filter,
                self@.instances.len() as int,
            ).len(),
            forall|i: int|
                0 <= i < found@.len() ==> *(#[trigger] found@[i]) == instances_matching(
                    self@.instances,
                    *filter,
                    self@.instances.len() as int,
                )[i],
    {
        let mut found: Vec<&TaskInstance> = Vec::new();
        let mut k: usize = 0;
        while k < self.instances.len()
            invariant
                k <= self.instances.len(),
                found@.len() == instances_matching(self.instances@, *filter, k as int).len(),
                forall|i: int|
                    0 <= i < found@.len() ==> *(#[trigger] found@[i]) == instances_matching(
                        self.instances@,
                        *filter,
                        k as int,
                    )[i],
            decreases self.instances.len() - k,
        {
            if filter.matches(&self.instances[k]) {
                found.push(&self.instances[k]);
            }
            k += 1;
        }
        found
    }

    /// Removes an instance for good; an administrative purge. Returns
    /// whether an instance had the id.
    pub fn delete_task_instance(&mut self, id: ObjectId) -> (deleted: bool)
        requires
            old(self).wf(),
        ensures
            final(self).wf(),
            final(self).ids_left() == old(self).ids_left(),
            final(self)@.tasks == old(self)@.tasks,
            final(self)@.logs == old(self)@.logs,
            deleted == has_instance(old(self)@.instances, id),
            !deleted ==> final(self)@ == old(self)@,
            deleted ==> final(self)@.instances == old(self)@.instances.remove(
                instance_index(old(self)@.instances, id),
            ),
    {
        match self.instance_slot(id) {
            Some(k) => {
                let ghost before = *self;
                self.instances.remove(k);
                proof {
                    assert forall|i: int| 0 <= i < self.instances@.len() implies exists|j: int|
                        0 <= j < before.instances@.len() && before.instances@[j].id == (
                        #[trigger] self.instances@[i]).id by {
                        let j = if i < k {
                            i
                        } else {
                            i + 1
                        };
                        assert(before.instances@[j].id == self.instances@[i].id);
                    }
                    assert forall|i: int, j: int|
                        0 <= i < self.instances@.len() && 0 <= j < self.instances@.len() && i
                            != j implies (#[trigger] self.instances@[i]).id != (
                    #[trigger] self.instances@[j]).id && !(self.instances@[i].task_id
                        == self.instances@[j].task_id && self.instances@[i].scheduled_time
                        == self.instances@[j].scheduled_time) by {
                        let i0 = if i < k {
                            i
                        } else {
                            i + 1
                        };
                        let j0 = if j < k {
                            j
                        } else {
                            j + 1
                        };
                        assert(before.instances@[i0].id != before.instances@[j0].id);
                    }
                    lemma_instances_changed(before, *self);
                }
                true
            },
            None => false,
        }
    }

    /// An executor claims an instance. Of all that claim a pending
    /// instance one after another, only the first wins: the claim turns
    /// the instance to running and notes the executor and `now` as the
    /// start. A claim on any other instance, or on none, changes nothing.
    pub fn claim(&mut self, instance_id: ObjectId, executor_id: String, now: Timestamp) -> (won:
        bool)
        requires
            old(self).wf(),
        ensures
            final(self).wf(),
            final(self).ids_left() == old(self).ids_left(),
            final(self)@.tasks == old(self)@.tasks,
            final(self)@.logs == old(self)@.logs,
            won == (has_instance(old(self)@.instances, instance_id) && old(
                self,
            )@.instances[instance_index(old(self)@.instances, instance_id)].status
                == TaskStatus::Pending),
            !won ==> final(self)@ == old(self)@,
            won ==> final(self)@.instances == old(self)@.instances.update(
                instance_index(old(self)@.instances, instance_id),
                old(self)@.instances[instance_index(old(self)@.instances, instance_id)].claimed(
                    executor_id,
                    now,
                ),
            ),
    {
        match self.instance_slot(instance_id) {
            Some(k) => {
                let ghost before = *self;
                let won = self.instances[k].claim(executor_id, now);
                proof {
                    if won {
                        lemma_instance_updated(before, *self, k as int);
                    } else {
                        assert(self.instances@ =~= before.instances@);
                    }
                }
                won
            },
            None => false,
        }
    }

    /// An executor reports how a run ended. The report applies to a
    /// running instance and must say Success or Failed; a report for an
    /// instance that has ended already, however it ended, is discarded
    /// and changes nothing.
    pub fn report(
        &mut self,
        instance_id: ObjectId,
        status: TaskStatus,
        result: ExecutionResult,
        now: Timestamp,
    ) -> (applied: bool)
        requires
            old(self).wf(),
        ensures
            final(self).wf(),
            final(self).ids_left() == old(self).ids_left(),
            final(self)@.tasks == old(self)@.tasks,
            final(self)@.logs == old(self)@.logs,
            applied == (has_instance(old(self)@.instances, instance_id) && old(
                self,
            )@.instances[instance_index(old(self)@.instances, instance_id)].accepts_report(status)),
            !applied ==> final(self)@ == old(self)@,
            applied ==> final(self)@.instances == old(self)@.instances.update(
                instance_index(old(self)@.instances, instance_id),
                old(self)@.instances[instance_index(old(self)@.instances, instance_id)].reported(
                    status,
                    result,
                    now,
                ),
            ),
    {
        match self.instance_slot(instance_id) {
            Some(k) => {
                let ghost before = *self;
                let applied = self.instances[k].report(status, result, now);
                proof {
                    if applied {
                        lemma_instance_updated(before, *self, k as int);
                    } else {
                        assert(self.instances@ =~= before.instances@);
                    }
                }
                applied
            },
            None => false,
        }
    }

    /// Cancels an instance on request. A pending or running instance
    /// becomes cancelled as of `now`; one that has ended stays as it is.
    pub fn cancel(&mut self, instance_id: ObjectId, now: Timestamp) -> (applied: bool)
        requires
            old(self).wf(),
        ensures
            final(self).wf(),
            final(self).ids_left() == old(self).ids_left(),
            final(self)@.tasks == old(self)@.tasks,
            final(self)@.logs == old(self)@.logs,
            applied == (has_instance(old(self)@.instances, instance_id) && !old(
                self,
            )@.instances[instance_index(old(self)@.instances, instance_id)].status.terminal()),
            !applied ==> final(self)@ == old(self)@,
            applied ==> final(self)@.instances == old(self)@.instances.update(
                instance_index(old(self)@.instances, instance_id),
                old(self)@.instances[instance_index(old(self)@.instances, instance_id)].cancelled(
                    now,
                ),
            ),
    {
        match self.instance_slot(instance_id) {
            Some(k) => {
                let ghost before = *self;
                let applied = self.instances[k].cancel(now);
                proof {
                    if applied {
                        lemma_instance_updated(before, *self, k as int);
                    } else {
                        assert(self.instances@ =~= before.instances@);
                    }
                }
                applied
            },
            None => false,
        }
    }

    /// The timeout that the task with the given id sets.
    fn task_timeout(&self, task_id: ObjectId) -> (r: Option<i32>)
        requires
            self.wf(),
        ensures
            r == timeout_of(self.tasks@, task_id),
    {
        match self.get_task(task_id) {
            Some(t) => t.timeout_seconds,
            None => None,
        }
    }

    /// Timeout supervision of one instance: if it is running and has, at
    /// `now`, run for longer than its task allows, it is failed without
    /// waiting for its executor, and the timeout is signalled. It then
    /// ends at `now` with an error text and no output. Otherwise nothing
    /// changes.
    pub fn expire(&mut self, instance_id: ObjectId, now: Timestamp) -> (signal: Option<
        ExecutionError,
    >)
        requires
            old(self).wf(),
        ensures
            final(self).wf(),
            final(self).ids_left() == old(self).ids_left(),
            final(self)@.tasks == old(self)@.tasks,
            final(self)@.logs == old(self)@.logs,
            signal == if has_instance(old(self)@.instances, instance_id) && old(
                self,
            )@.instances[instance_index(old(self)@.instances, instance_id)].overdue(
                timeout_of(
                    old(self)@.tasks,
                    old(self)@.instances[instance_index(old(self)@.instances, instance_id)].task_id,
                ),
                now,
            ) {
                Some(ExecutionError::Timeout)
            } else {
                None
            },
            signal is None ==> final(self)@ == old(self)@,
            signal is Some ==> {
                let k = instance_index(old(self)@.instances, instance_id);
                &&& final(self)@.instances.len() == old(self)@.instances.len()
                &&& final(self)@.instances[k].result matches Some(r)
                &&& r.output is None
                &&& r.exit_code is None
                &&& (r.error matches Some(m) && m@ == timeout_text())
                &&& final(self)@.instances == old(self)@.instances.update(
                    k,
                    old(self)@.instances[k].reported(TaskStatus::Failed, r, now),
                )
            },
    {
        match self.instance_slot(instance_id) {
            Some(k) => {
                let ghost before = *self;
                let timeout = self.task_timeout(self.instances[k].task_id);
                let signal = self.instances[k].supervise(timeout, now);
                proof {
                    if signal is Some {
                        lemma_instance_updated(before, *self, k as int);
                    } else {
                        assert(self.instances@ =~= before.instances@);
                    }
                }
                signal
            },
            None => None,
        }
    }
}

} // verus!
