//! The store of the scheduler: task definitions, their instances and the
//! execution log, with the rules that every write keeps. The store hands
//! out the identifiers; a task is deleted by marking it, an instance or a
//! log entry by removing it.

use crate::planner::key_taken;
use crate::resolver::CycleError;
use crate::types::{ExecutionLog, ObjectId, Task, TaskInstance};
use vstd::prelude::*;

pub mod instances;
pub mod logs;
pub mod tasks;

pub use instances::{has_instance, instance_index, stored_instance, timeout_of};
pub use logs::{
    corrected_log,
    duration_of,
    ended_at,
    has_log,
    is_logged,
    log_index,
    log_of,
    record_index,
};
pub use tasks::{
    deleted_task,
    has_live_task,
    has_task,
    name_taken,
    name_taken_by_other,
    task_from,
    task_index,
    updated_task,
};

verus! {

/// Why the store refused a write.
#[derive(Clone, Debug)]
pub enum StoreError {
    /// No such entry, or, for a task, it is soft-deleted.
    NotFound,
    /// An instance exists already for that task and tick. A planner takes
    /// this as done.
    DuplicateInstance,
    /// Another task that is not deleted has that name.
    DuplicateName,
    /// The write would close a cycle among the dependencies.
    Cycle(CycleError),
    /// The store has no identifier left to hand out.
    Exhausted,
}

/// What the store holds, in the order of arrival.
pub struct StoreModel {
    pub tasks: Seq<Task>,
    pub instances: Seq<TaskInstance>,
    pub logs: Seq<ExecutionLog>,
}

/// Every task has an id of its own.
pub open spec fn task_ids_distinct(tasks: Seq<Task>) -> bool {
    &&& forall|i: int| 0 <= i < tasks.len() ==> (#[trigger] tasks[i]).id is Some
    &&& forall|i: int, j: int|
        0 <= i < tasks.len() && 0 <= j < tasks.len() && i != j ==> (#[trigger] tasks[i]).id != (
        #[trigger] tasks[j]).id
}

/// Among the tasks that are not deleted, every name occurs once.
pub open spec fn names_distinct(tasks: Seq<Task>) -> bool {
    forall|i: int, j: int|
        0 <= i < tasks.len() && 0 <= j < tasks.len() && i != j && (#[trigger] tasks[i]).deleted_at
            is None && (#[trigger] tasks[j]).deleted_at is None ==> tasks[i].name@ != tasks[j].name@
}

/// Every instance has an id of its own.
pub open spec fn instance_ids_distinct(instances: Seq<TaskInstance>) -> bool {
    &&& forall|i: int| 0 <= i < instances.len() ==> (#[trigger] instances[i]).id is Some
    &&& forall|i: int, j: int|
        0 <= i < instances.len() && 0 <= j < instances.len() && i != j ==> (
        #[trigger] instances[i]).id != (#[trigger] instances[j]).id
}

/// At most one instance exists for any task and tick.
pub open spec fn single_flight(instances: Seq<TaskInstance>) -> bool {
    forall|i: int, j: int|
        0 <= i < instances.len() && 0 <= j < instances.len() && i != j ==> !((
        #[trigger] instances[i]).task_id == (#[trigger] instances[j]).task_id
            && instances[i].scheduled_time == instances[j].scheduled_time)
}

/// Every log entry has an id of its own, and no instance is logged twice.
pub open spec fn logs_distinct(logs: Seq<ExecutionLog>) -> bool {
    &&& forall|i: int| 0 <= i < logs.len() ==> (#[trigger] logs[i]).id is Some
    &&& forall|i: int, j: int|
        0 <= i < logs.len() && 0 <= j < logs.len() && i != j ==> (#[trigger] logs[i]).id != (
        #[trigger] logs[j]).id && logs[i].instance_id != logs[j].instance_id
}

/// The rules that the contents of the store keep at all times.
pub open spec fn consistent(v: StoreModel) -> bool {
    &&& task_ids_distinct(v.tasks)
    &&& names_distinct(v.tasks)
    &&& instance_ids_distinct(v.instances)
    &&& single_flight(v.instances)
    &&& logs_distinct(v.logs)
}

/// The id is present and is none that the counter will hand out: the
/// counter hands out the ids with head 0 and a tail from `next` on.
pub open spec fn issued(id: Option<ObjectId>, next: u64) -> bool {
    id matches Some(i) && (i.head != 0 || i.tail < next)
}

/// The id does not close the range of ids that a store hands out.
pub open spec fn leaves_room(id: Option<ObjectId>) -> bool {
    id matches Some(i) ==> !(i.head == 0 && i.tail == u64::MAX)
}

/// No id among the contents closes the range of ids that a store hands
/// out.
pub open spec fn id_space_open(v: StoreModel) -> bool {
    &&& forall|i: int| 0 <= i < v.tasks.len() ==> leaves_room(#[trigger] v.tasks[i].id)
    &&& forall|i: int| 0 <= i < v.instances.len() ==> leaves_room(#[trigger] v.instances[i].id)
    &&& forall|i: int| 0 <= i < v.logs.len() ==> leaves_room(#[trigger] v.logs[i].id)
}

/// The in-memory store.
pub struct DataStore {
    tasks: Vec<Task>,
    instances: Vec<TaskInstance>,
    logs: Vec<ExecutionLog>,
    next_id: u64,
}

impl View for DataStore {
    type V = StoreModel;

    closed spec fn view(&self) -> StoreModel {
        StoreModel { tasks: self.tasks@, instances: self.instances@, logs: self.logs@ }
    }
}

impl DataStore {
    /// Every id in the store is one that the counter has passed.
    pub closed spec fn counter_ahead(self) -> bool {
        &&& forall|i: int| 0 <= i < self.tasks@.len() ==> issued(#[trigger] self.tasks@[i].id, self.next_id)
        &&& forall|i: int|
            0 <= i < self.instances@.len() ==> issued(#[trigger] self.instances@[i].id, self.next_id)
        &&& forall|i: int| 0 <= i < self.logs@.len() ==> issued(#[trigger] self.logs@[i].id, self.next_id)
    }

    /// How many identifiers the store can still hand out.
    pub closed spec fn ids_left(self) -> nat {
        (u64::MAX - self.next_id) as nat
    }

    /// The store has handed out every identifier it had.
    pub open spec fn exhausted(self) -> bool {
        self.ids_left() == 0
    }

    /// The identifier that the next successful create hands out.
    pub closed spec fn upcoming_id(self) -> ObjectId {
        ObjectId { head: 0, tail: self.next_id }
    }

    /// Well-formedness: the contents are consistent, and no id in them
    /// will be handed out again.
    pub open spec fn wf(self) -> bool {
        consistent(self@) && self.counter_ahead()
    }

    /// An empty store.
    pub fn new() -> (s: DataStore)
        ensures
            s.wf(),
            s@.tasks.len() == 0,
            s@.instances.len() == 0,
            s@.logs.len() == 0,
            s.ids_left() == u64::MAX,
    {
        DataStore { tasks: Vec::new(), instances: Vec::new(), logs: Vec::new(), next_id: 0 }
    }

    /// The tasks, in the order of their creation.
    pub fn tasks(&self) -> (r: &Vec<Task>)
        ensures
            r@ == self@.tasks,
    {
        &self.tasks
    }

    /// The instances, in the order of their creation.
    pub fn instances(&self) -> (r: &Vec<TaskInstance>)
        ensures
            r@ == self@.instances,
    {
        &self.instances
    }

    /// The log entries, in the order in which they were written.
    pub fn logs(&self) -> (r: &Vec<ExecutionLog>)
        ensures
            r@ == self@.logs,
    {
        &self.logs
    }

    /// Hands out the next identifier, if one is left.
    fn fresh_id(&mut self) -> (r: Option<ObjectId>)
        ensures
            final(self)@ == old(self)@,
            old(self).exhausted() ==> r is None && *final(self) == *old(self),
            !old(self).exhausted() ==> r == Some(old(self).upcoming_id()) && final(self).next_id
                == old(self).next_id + 1 && final(self).ids_left() == old(self).ids_left() - 1,
    {
        if self.next_id == u64::MAX {
            None
        } else {
            let id = ObjectId { head: 0, tail: self.next_id };
            self.next_id = self.next_id + 1;
            Some(id)
        }
    }

    /// Empties the store. Identifiers that were handed out are not handed
    /// out again.
    pub fn clear_all_data(&mut self)
        requires
            old(self).wf(),
        ensures
            final(self).wf(),
            final(self).ids_left() == old(self).ids_left(),
            final(self)@.tasks.len() == 0,
            final(self)@.instances.len() == 0,
            final(self)@.logs.len() == 0,
    {
        self.tasks.clear();
        self.instances.clear();
        self.logs.clear();
    }
}

/// A store stays well-formed when an entry with the id just handed out is
/// appended to the instances, for a task and tick that had none, or to
/// the log, for an instance that had none.
proof fn lemma_appended(before: DataStore, after: DataStore)
    requires
        before.wf(),
        !before.exhausted(),
        after.tasks@ == before.tasks@,
        after.next_id == before.next_id + 1,
        ({
            &&& after.logs@ == before.logs@
            &&& after.instances@.len() == before.instances@.len() + 1
            &&& after.instances@.take(before.instances@.len() as int) == before.instances@
            &&& after.instances@.last().id == Some(before.upcoming_id())
            &&& !key_taken(
                before.instances@,
                after.instances@.last().task_id,
                after.instances@.last().scheduled_time,
            )
        }) || ({
            &&& after.instances@ == before.instances@
            &&& after.logs@.len() == before.logs@.len() + 1
            &&& after.logs@.take(before.logs@.len() as int) == before.logs@
            &&& after.logs@.last().id == Some(before.upcoming_id())
            &&& !is_logged(before.logs@, after.logs@.last().instance_id)
        }),
    ensures
        after.wf(),
{
    let n = before.instances@.len() as int;
    let m = before.logs@.len() as int;
    assert forall|i: int| 0 <= i < after.tasks@.len() implies issued(
        #[trigger] after.tasks@[i].id,
        after.next_id,
    ) by {
        assert(issued(before.tasks@[i].id, before.next_id));
    }
    assert forall|i: int| 0 <= i < after.instances@.len() implies issued(
        #[trigger] after.instances@[i].id,
        after.next_id,
    ) by {
        if i < n {
            assert(after.instances@[i] == after.instances@.take(n)[i] || after.instances
                == before.instances);
            assert(issued(before.instances@[i].id, before.next_id));
        }
    }
    assert forall|i: int| 0 <= i < after.logs@.len() implies issued(
        #[trigger] after.logs@[i].id,
        after.next_id,
    ) by {
        if i < m {
            assert(after.logs@[i] == after.logs@.take(m)[i] || after.logs@ == before.logs@);
            assert(issued(before.logs@[i].id, before.next_id));
        }
    }
    assert forall|i: int, j: int|
        0 <= i < after.instances@.len() && 0 <= j < after.instances@.len() && i != j implies (
    #[trigger] after.instances@[i]).id != (#[trigger] after.instances@[j]).id && !(
    after.instances@[i].task_id == after.instances@[j].task_id && after.instances@[i].scheduled_time
        == after.instances@[j].scheduled_time) by {
        if i < n {
            assert(after.instances@[i] == after.instances@.take(n)[i] || after.instances
                == before.instances);
            assert(issued(before.instances@[i].id, before.next_id));
        }
        if j < n {
            assert(after.instances@[j] == after.instances@.take(n)[j] || after.instances
                == before.instances);
            assert(issued(before.instances@[j].id, before.next_id));
        }
        if i < n && j < n {
            assert(before.instances@[i].id != before.instances@[j].id);
        }
    }
    assert forall|i: int, j: int|
        0 <= i < after.logs@.len() && 0 <= j < after.logs@.len() && i != j implies (
    #[trigger] after.logs@[i]).id != (#[trigger] after.logs@[j]).id && after.logs@[i].instance_id
        != after.logs@[j].instance_id by {
        if i < m {
            assert(after.logs@[i] == after.logs@.take(m)[i] || after.logs@ == before.logs@);
            assert(issued(before.logs@[i].id, before.next_id));
        }
        if j < m {
            assert(after.logs@[j] == after.logs@.take(m)[j] || after.logs@ == before.logs@);
            assert(issued(before.logs@[j].id, before.next_id));
        }
        if i < m && j < m {
            assert(before.logs@[i].id != before.logs@[j].id);
        }
    }
}

/// Whether every task has an id of its own and, among those not deleted,
/// a name of its own.
fn tasks_consistent(tasks: &Vec<Task>) -> (r: bool)
    ensures
        r == (task_ids_distinct(tasks@) && names_distinct(tasks@)),
{
    let mut i: usize = 0;
    while i < tasks.len()
        invariant
            i <= tasks.len(),
            forall|a: int| 0 <= a < i ==> (#[trigger] tasks@[a]).id is Some,
            forall|a: int, b: int|
                0 <= a < i && 0 <= b < a ==> (#[trigger] tasks@[a]).id != (#[trigger] tasks@[b]).id,
            forall|a: int, b: int|
                0 <= a < i && 0 <= b < a && (#[trigger] tasks@[a]).deleted_at is None && (
                #[trigger] tasks@[b]).deleted_at is None ==> tasks@[a].name@ != tasks@[b].name@,
        decreases tasks.len() - i,
    {
        if tasks[i].id.is_none() {
            return false;
        }
        let mut j: usize = 0;
        while j < i
            invariant
                j <= i < tasks.len(),
                forall|b: int| 0 <= b < j ==> tasks@[i as int].id != (#[trigger] tasks@[b]).id,
                forall|b: int|
                    0 <= b < j && tasks@[i as int].deleted_at is None && (
                    #[trigger] tasks@[b]).deleted_at is None ==> tasks@[i as int].name@
                        != tasks@[b].name@,
            decreases i - j,
        {
            if tasks[i].id == tasks[j].id {
                assert(!task_ids_distinct(tasks@));
                return false;
            }
            if tasks[i].deleted_at.is_none() && tasks[j].deleted_at.is_none() && tasks[i].name
                == tasks[j].name {
                assert(!names_distinct(tasks@));
                return false;
            }
            j += 1;
        }
        i += 1;
    }
    proof {
        assert forall|a: int, b: int|
            0 <= a < tasks@.len() && 0 <= b < tasks@.len() && a != b implies (
        #[trigger] tasks@[a]).id != (#[trigger] tasks@[b]).id by {
            if a < b {
                assert(tasks@[b].id != tasks@[a].id);
            }
        }
        assert forall|a: int, b: int|
            0 <= a < tasks@.len() && 0 <= b < tasks@.len() && a != b && (
            #[trigger] tasks@[a]).deleted_at is None && (#[trigger] tasks@[b]).deleted_at
                is None implies tasks@[a].name@ != tasks@[b].name@ by {
            if a < b {
                assert(tasks@[b].name@ != tasks@[a].name@);
            }
        }
    }
    true
}

/// Whether every instance has an id of its own and a task and tick of
/// its own.
fn instances_consistent(instances: &Vec<TaskInstance>) -> (r: bool)
    ensures
        r == (instance_ids_distinct(instances@) && single_flight(instances@)),
{
    let mut i: usize = 0;
    while i < instances.len()
        invariant
            i <= instances.len(),
            forall|a: int| 0 <= a < i ==> (#[trigger] instances@[a]).id is Some,
            forall|a: int, b: int|
                0 <= a < i && 0 <= b < a ==> (#[trigger] instances@[a]).id != (
                #[trigger] instances@[b]).id && !(instances@[a].task_id == instances@[b].task_id
                    && instances@[a].scheduled_time == instances@[b].scheduled_time),
        decreases instances.len() - i,
    {
        if instances[i].id.is_none() {
            return false;
        }
        let mut j: usize = 0;
        while j < i
            invariant
                j <= i < instances.len(),
                forall|b: int|
                    0 <= b < j ==> instances@[i as int].id != (#[trigger] instances@[b]).id && !(
                    instances@[i as int].task_id == instances@[b].task_id
                        && instances@[i as int].scheduled_time == instances@[b].scheduled_time),
            decreases i - j,
        {
            if instances[i].id == instances[j].id {
                assert(!instance_ids_distinct(instances@));
                return false;
            }
            if instances[i].task_id == instances[j].task_id && instances[i].scheduled_time
                == instances[j].scheduled_time {
                assert(!single_flight(instances@));
                return false;
            }
            j += 1;
        }
        i += 1;
    }
    proof {
        assert forall|a: int, b: int|
            0 <= a < instances@.len() && 0 <= b < instances@.len() && a != b implies (
        #[trigger] instances@[a]).id != (#[trigger] instances@[b]).id && !(instances@[a].task_id
            == instances@[b].task_id && instances@[a].scheduled_time
            == instances@[b].scheduled_time) by {
            if a < b {
                assert(instances@[b].id != instances@[a].id);
            }
        }
    }
    true
}

/// Whether every log entry has an id of its own and an instance of its
/// own.
fn logs_consistent(logs: &Vec<ExecutionLog>) -> (r: bool)
    ensures
        r == logs_distinct(logs@),
{
    let mut i: usize = 0;
    while i < logs.len()
        invariant
            i <= logs.len(),
            forall|a: int| 0 <= a < i ==> (#[trigger] logs@[a]).id is Some,
            forall|a: int, b: int|
                0 <= a < i && 0 <= b < a ==> (#[trigger] logs@[a]).id != (#[trigger] logs@[b]).id
                    && logs@[a].instance_id != logs@[b].instance_id,
        decreases logs.len() - i,
    {
        if logs[i].id.is_none() {
            return false;
        }
        let mut j: usize = 0;
        while j < i
            invariant
                j <= i < logs.len(),
                forall|b: int|
                    0 <= b < j ==> logs@[i as int].id != (#[trigger] logs@[b]).id
                        && logs@[i as int].instance_id != logs@[b].instance_id,
            decreases i - j,
        {
            if logs[i].id == logs[j].id || logs[i].instance_id == logs[j].instance_id {
                assert(!logs_distinct(logs@));
                return false;
            }
            j += 1;
        }
        i += 1;
    }
    proof {
        assert forall|a: int, b: int|
            0 <= a < logs@.len() && 0 <= b < logs@.len() && a != b implies (#[trigger] logs@[a]).id
            != (#[trigger] logs@[b]).id && logs@[a].instance_id != logs@[b].instance_id by {
            if a < b {
                assert(logs@[b].id != logs@[a].id);
            }
        }
    }
    true
}

/// The counter after `id`: past `id` if the counter could hand it out,
/// else as before. `None` if `id` closes the range.
fn counter_past(next: u64, id: Option<ObjectId>) -> (r: Option<u64>)
    ensures
        r is Some <==> leaves_room(id),
        r matches Some(n) ==> n >= next && (id is Some ==> issued(id, n)),
{
    match id {
        Some(i) => {
            if i.head != 0 {
                Some(next)
            } else if i.tail == u64::MAX {
                None
            } else if i.tail >= next {
                Some(i.tail + 1)
            } else {
                Some(next)
            }
        },
        None => Some(next),
    }
}

impl DataStore {
    /// Rebuilds a store from what was stored, as after a restart: nothing
    /// but the stored entries themselves goes into it.
    ///
    /// The entries are taken if and only if they are consistent, that is,
    /// every entry has an id and no two of a kind share one, no two tasks
    /// that are not deleted share a name, no two instances share task and
    /// tick, and no two log entries record the same instance; and if none
    /// of their ids closes the range of ids that the store hands out. The
    /// store then holds exactly these entries, and hands out no id that is
    /// among them.
    pub fn restore(tasks: Vec<Task>, instances: Vec<TaskInstance>, logs: Vec<ExecutionLog>) -> (r:
        Option<DataStore>)
        ensures
            r is Some <==> consistent(
                StoreModel { tasks: tasks@, instances: instances@, logs: logs@ },
            ) && id_space_open(StoreModel { tasks: tasks@, instances: instances@, logs: logs@ }),
            r matches Some(s) ==> s.wf() && s@ == (StoreModel {
                tasks: tasks@,
                instances: instances@,
                logs: logs@,
            }),
    {
        if !tasks_consistent(&tasks) || !instances_consistent(&instances) || !logs_consistent(&logs) {
            return None;
        }
        let mut next: u64 = 0;
        let mut i: usize = 0;
        while i < tasks.len()
            invariant
                i <= tasks.len(),
                task_ids_distinct(tasks@),
                forall|a: int| 0 <= a < i ==> issued(#[trigger] tasks@[a].id, next),
                forall|a: int| 0 <= a < i ==> leaves_room(#[trigger] tasks@[a].id),
            decreases tasks.len() - i,
        {
            match counter_past(next, tasks[i].id) {
                Some(n) => {
                    next = n;
                },
                None => {
                    return None;
                },
            }
            i += 1;
        }
        let mut i: usize = 0;
        while i < instances.len()
            invariant
                i <= instances.len(),
                instance_ids_distinct(instances@),
                forall|a: int| 0 <= a < tasks@.len() ==> issued(#[trigger] tasks@[a].id, next),
                forall|a: int| 0 <= a < tasks@.len() ==> leaves_room(#[trigger] tasks@[a].id),
                forall|a: int| 0 <= a < i ==> issued(#[trigger] instances@[a].id, next),
                forall|a: int| 0 <= a < i ==> leaves_room(#[trigger] instances@[a].id),
            decreases instances.len() - i,
        {
            match counter_past(next, instances[i].id) {
                Some(n) => {
                    next = n;
                },
                None => {
                    return None;
                },
            }
            i += 1;
        }
        let mut i: usize = 0;
        while i < logs.len()
            invariant
                i <= logs.len(),
                logs_distinct(logs@),
                forall|a: int| 0 <= a < tasks@.len() ==> issued(#[trigger] tasks@[a].id, next),
                forall|a: int| 0 <= a < tasks@.len() ==> leaves_room(#[trigger] tasks@[a].id),
                forall|a: int|
                    0 <= a < instances@.len() ==> issued(#[trigger] instances@[a].id, next),
                forall|a: int| 0 <= a < instances@.len() ==> leaves_room(#[trigger] instances@[a].id),
                forall|a: int| 0 <= a < i ==> issued(#[trigger] logs@[a].id, next),
                forall|a: int| 0 <= a < i ==> leaves_room(#[trigger] logs@[a].id),
            decreases logs.len() - i,
        {
            match counter_past(next, logs[i].id) {
                Some(n) => {
                    next = n;
                },
                None => {
                    return None;
                },
            }
            i += 1;
        }
        Some(DataStore { tasks, instances, logs, next_id: next })
    }
}

} // verus!
