//! The task definitions in the store: registering, changing, soft
//! deletion and search.

use super::{issued, names_distinct, task_ids_distinct, DataStore, StoreError};
use crate::filters::tasks_matching;
use crate::graph::next_pos;
use crate::resolver::{depends, has_dependency_cycle, is_dependency_cycle, path_ids, validate};
use crate::types::{CreateTaskRequest, ObjectId, Task, TaskFilter, Timestamp, UpdateTaskRequest};
use vstd::prelude::*;

verus! {

/// A task that is not deleted has the name `name`.
pub open spec fn name_taken(tasks: Seq<Task>, name: Seq<char>) -> bool {
    exists|k: int|
        0 <= k < tasks.len() && (#[trigger] tasks[k]).deleted_at is None && tasks[k].name@ == name
}

/// The task that a request asks for, under the id and at the time at which
/// the store creates it.
pub open spec fn task_from(req: CreateTaskRequest, id: ObjectId, now: Timestamp) -> Task {
    Task {
        id: Some(id),
        name: req.name,
        description: req.description,
        dependency_ids: req.dependency_ids,
        task_type: req.task_type,
        schedule: req.schedule,
        enabled: req.enabled,
        payload: req.payload,
        timeout_seconds: req.timeout_seconds,
        max_retries: req.max_retries,
        created_at: now,
        updated_at: now,
        deleted_at: None,
    }
}

/// Some task has the id.
pub open spec fn has_task(tasks: Seq<Task>, id: ObjectId) -> bool {
    exists|k: int| 0 <= k < tasks.len() && (#[trigger] tasks[k]).id == Some(id)
}

/// Position of the task with the id, where there is one.
pub open spec fn task_index(tasks: Seq<Task>, id: ObjectId) -> int {
    choose|k: int| 0 <= k < tasks.len() && (#[trigger] tasks[k]).id == Some(id)
}

/// Some task has the id and is not deleted.
pub open spec fn has_live_task(tasks: Seq<Task>, id: ObjectId) -> bool {
    has_task(tasks, id) && tasks[task_index(tasks, id)].deleted_at is None
}

/// A task other than the one at position `k` is not deleted and has the
/// name `name`.
pub open spec fn name_taken_by_other(tasks: Seq<Task>, name: Seq<char>, k: int) -> bool {
    exists|j: int|
        0 <= j < tasks.len() && j != k && (#[trigger] tasks[j]).deleted_at is None && tasks[j].name@
            == name
}

/// The task after an update: each field that the request sets replaces
/// the task's, and the time of the update is noted.
pub open spec fn updated_task(task: Task, req: UpdateTaskRequest, now: Timestamp) -> Task {
    Task {
        name: match req.name {
            Some(n) => n,
            None => task.name,
        },
        description: match req.description {
            Some(d) => Some(d),
            None => task.description,
        },
        dependency_ids: match req.dependency_ids {
            Some(d) => d,
            None => task.dependency_ids,
        },
        schedule: match req.schedule {
            Some(s) => s,
            None => task.schedule,
        },
        enabled: match req.enabled {
            Some(e) => e,
            None => task.enabled,
        },
        payload: match req.payload {
            Some(p) => p,
            None => task.payload,
        },
        timeout_seconds: match req.timeout_seconds {
            Some(t) => Some(t),
            None => task.timeout_seconds,
        },
        max_retries: match req.max_retries {
            Some(m) => Some(m),
            None => task.max_retries,
        },
        updated_at: now,
        ..task
    }
}

/// The task once it has been soft-deleted at `now`.
pub open spec fn deleted_task(task: Task, now: Timestamp) -> Task {
    Task { deleted_at: Some(now), updated_at: now, ..task }
}

/// Two lists of definitions that agree in ids, in who is enabled and not
/// deleted, and in dependencies have the same dependency cycles.
proof fn lemma_same_graph(a: Seq<Task>, b: Seq<Task>)
    requires
        a.len() == b.len(),
        forall|i: int|
            0 <= i < a.len() ==> (#[trigger] a[i]).id == b[i].id && a[i].active() == b[i].active()
                && a[i].dependency_ids == b[i].dependency_ids,
    ensures
        forall|path: Seq<int>| #[trigger]
            is_dependency_cycle(a, path) ==> is_dependency_cycle(b, path) && path_ids(a, path)
                == path_ids(b, path),
        has_dependency_cycle(a) ==> has_dependency_cycle(b),
{
    assert forall|path: Seq<int>| #[trigger] is_dependency_cycle(a, path) implies is_dependency_cycle(
        b,
        path,
    ) && path_ids(a, path) == path_ids(b, path) by {
        assert forall|k: int| 0 <= k < path.len() implies depends(
            b,
            #[trigger] path[k],
            path[next_pos(k, path.len() as int)],
        ) by {
            assert(depends(a, path[k], path[next_pos(k, path.len() as int)]));
        }
        assert(path_ids(a, path) =~= path_ids(b, path)) by {
            assert forall|k: int| 0 <= k < path.len() implies a[path[k]].id == b[path[k]].id by {
                assert(depends(a, path[k], path[next_pos(k, path.len() as int)]));
            }
        }
    }
    if has_dependency_cycle(a) {
        let path = choose|path: Seq<int>| is_dependency_cycle(a, path);
        assert(is_dependency_cycle(b, path));
    }
}

impl DataStore {
    /// Position of the task with the given id.
    fn task_position(&self, id: ObjectId) -> (r: Option<usize>)
        ensures
            r matches Some(k) ==> k < self.tasks@.len() && self.tasks@[k as int].id == Some(id),
            r is None ==> forall|k: int|
                0 <= k < self.tasks@.len() ==> (#[trigger] self.tasks@[k]).id != Some(id),
    {
        let mut k: usize = 0;
        while k < self.tasks.len()
            invariant
                k <= self.tasks.len(),
                forall|j: int| 0 <= j < k ==> (#[trigger] self.tasks@[j]).id != Some(id),
            decreases self.tasks.len() - k,
        {
            if self.tasks[k].id == Some(id) {
                return Some(k);
            }
            k += 1;
        }
        None
    }

    /// Whether a task other than the one at `except` is not deleted and
    /// has the name `name`.
    fn name_in_use(&self, name: &String, except: Option<usize>) -> (r: bool)
        ensures
            except is None ==> r == name_taken(self.tasks@, name@),
            except matches Some(e) ==> r == name_taken_by_other(self.tasks@, name@, e as int),
    {
        let mut k: usize = 0;
        while k < self.tasks.len()
            invariant
                k <= self.tasks.len(),
                forall|j: int|
                    0 <= j < k && !(except matches Some(e) && e == j) ==> !((
                    #[trigger] self.tasks@[j]).deleted_at is None && self.tasks@[j].name@ == name@),
            decreases self.tasks.len() - k,
        {
            let skip = match except {
                Some(e) => e == k,
                None => false,
            };
            if !skip && self.tasks[k].deleted_at.is_none() && self.tasks[k].name == *name {
                return true;
            }
            k += 1;
        }
        false
    }

    /// Registers a task. The store gives it its id and notes `now` as the
    /// time of creation and of the last update.
    ///
    /// The request is refused, and the store left as it is, if a task
    /// that is not deleted has the name already, if no identifier is left,
    /// or if the dependencies of the definitions, the new one included,
    /// would contain a cycle; in that order.
    pub fn create_task(&mut self, req: CreateTaskRequest, now: Timestamp) -> (res: Result<
        ObjectId,
        StoreError,
    >)
        requires
            old(self).wf(),
        ensures
            final(self).wf(),
            final(self).ids_left() == if res is Ok {
                old(self).ids_left() - 1
            } else {
                old(self).ids_left() as int
            },
            final(self)@.instances == old(self)@.instances,
            final(self)@.logs == old(self)@.logs,
            res is Err ==> final(self)@ == old(self)@,
            name_taken(old(self)@.tasks, req.name@) ==> res matches Err(StoreError::DuplicateName),
            !name_taken(old(self)@.tasks, req.name@) && old(self).exhausted() ==> res matches Err(
                StoreError::Exhausted,
            ),
            !name_taken(old(self)@.tasks, req.name@) && !old(self).exhausted() ==> {
                let task = task_from(req, old(self).upcoming_id(), now);
                let tasks = old(self)@.tasks.push(task);
                if has_dependency_cycle(tasks) {
                    res matches Err(StoreError::Cycle(e)) && exists|path: Seq<int>|
                        is_dependency_cycle(tasks, path) && e.path@ == path_ids(tasks, path)
                } else {
                    res == Ok::<ObjectId, StoreError>(old(self).upcoming_id()) && final(self)@.tasks
                        == tasks
                }
            },
    {
        if self.name_in_use(&req.name, None) {
            return Err(StoreError::DuplicateName);
        }
        let ghost before = *self;
        let id = match self.fresh_id() {
            Some(id) => id,
            None => {
                return Err(StoreError::Exhausted);
            },
        };
        let task = Task {
            id: Some(id),
            name: req.name,
            description: req.description,
            dependency_ids: req.dependency_ids,
            task_type: req.task_type,
            schedule: req.schedule,
            enabled: req.enabled,
            payload: req.payload,
            timeout_seconds: req.timeout_seconds,
            max_retries: req.max_retries,
            created_at: now,
            updated_at: now,
            deleted_at: None,
        };
        self.tasks.push(task);
        match validate(&self.tasks) {
            Ok(()) => {
                assert(names_distinct(self.tasks@)) by {
                    assert forall|i: int, j: int|
                        0 <= i < self.tasks@.len() && 0 <= j < self.tasks@.len() && i != j && (
                        #[trigger] self.tasks@[i]).deleted_at is None && (
                        #[trigger] self.tasks@[j]).deleted_at is None implies self.tasks@[i].name@
                        != self.tasks@[j].name@ by {
                        if i < before.tasks@.len() {
                            assert(self.tasks@[i] == before.tasks@[i]);
                        }
                        if j < before.tasks@.len() {
                            assert(self.tasks@[j] == before.tasks@[j]);
                        }
                    }
                }
                assert(task_ids_distinct(self.tasks@)) by {
                    assert forall|i: int, j: int|
                        0 <= i < self.tasks@.len() && 0 <= j < self.tasks@.len() && i != j implies (
                    #[trigger] self.tasks@[i]).id != (#[trigger] self.tasks@[j]).id by {
                        if i < before.tasks@.len() {
                            assert(issued(before.tasks@[i].id, before.next_id));
                        }
                        if j < before.tasks@.len() {
                            assert(issued(before.tasks@[j].id, before.next_id));
                        }
                    }
                }
                assert(self.counter_ahead()) by {
                    assert forall|i: int| 0 <= i < self.tasks@.len() implies issued(
                        #[trigger] self.tasks@[i].id,
                        self.next_id,
                    ) by {
                        if i < before.tasks@.len() {
                            assert(issued(before.tasks@[i].id, before.next_id));
                        }
                    }
                    assert forall|i: int| 0 <= i < self.instances@.len() implies issued(
                        #[trigger] self.instances@[i].id,
                        self.next_id,
                    ) by {
                        assert(issued(before.instances@[i].id, before.next_id));
                    }
                    assert forall|i: int| 0 <= i < self.logs@.len() implies issued(
                        #[trigger] self.logs@[i].id,
                        self.next_id,
                    ) by {
                        assert(issued(before.logs@[i].id, before.next_id));
                    }
                }
                Ok(id)
            },
            Err(e) => {
                self.tasks.pop();
                self.next_id = self.next_id - 1;
                assert(self.tasks@ =~= before.tasks@);
                Err(StoreError::Cycle(e))
            },
        }
    }

    /// The task with the given id, deleted or not.
    pub fn get_task(&self, id: ObjectId) -> (r: Option<&Task>)
        requires
            self.wf(),
        ensures
            r is Some <==> has_task(self@.tasks, id),
            r matches Some(t) ==> *t == self@.tasks[task_index(self@.tasks, id)] && t.id == Some(id),
    {
        match self.task_position(id) {
            Some(k) => {
                assert(task_index(self@.tasks, id) == k) by {
                    let c = task_index(self@.tasks, id);
                    if c != k {
                        assert(self.tasks@[c].id != self.tasks@[k as int].id);
                    }
                }
                Some(&self.tasks[k])
            },
            None => None,
        }
    }

    /// The tasks that the filter admits, in the order of their creation.
    pub fn find_tasks(&self, filter: &TaskFilter) -> (found: Vec<&Task>)
        ensures
            found@.len() == tasks_matching(self@.tasks, *filter, self@.tasks.len() as int).len(),
            forall|i: int|
                0 <= i < found@.len() ==> *(#[trigger] found@[i]) == tasks_matching(
                    self@.tasks,
                    *filter,
                    self@.tasks.len() as int,
                )[i],
    {
        let mut found: Vec<&Task> = Vec::new();
        let mut k: usize = 0;
        while k < self.tasks.len()
            invariant
                k <= self.tasks.len(),
                found@.len() == tasks_matching(self.tasks@, *filter, k as int).len(),
                forall|i: int|
                    0 <= i < found@.len() ==> *(#[trigger] found@[i]) == tasks_matching(
                        self.tasks@,
                        *filter,
                        k as int,
                    )[i],
            decreases self.tasks.len() - k,
        {
            if filter.matches(&self.tasks[k]) {
                found.push(&self.tasks[k]);
            }
            k += 1;
        }
        found
    }

    /// Changes a task: each field that the request sets replaces the
    /// task's, and `now` is noted as the time of the update.
    ///
    /// The request is refused, and the store left as it is, if no task
    /// has the id or the task is deleted, if the request sets a name that
    /// another task that is not deleted has, or if it sets the
    /// dependencies and the definitions would then contain a cycle; in
    /// that order.
    pub fn update_task(&mut self, id: ObjectId, req: UpdateTaskRequest, now: Timestamp) -> (res:
        Result<(), StoreError>)
        requires
            old(self).wf(),
        ensures
            final(self).wf(),
            final(self).ids_left() == old(self).ids_left(),
            final(self)@.instances == old(self)@.instances,
            final(self)@.logs == old(self)@.logs,
            res is Err ==> final(self)@ == old(self)@,
            !has_live_task(old(self)@.tasks, id) ==> res matches Err(StoreError::NotFound),
            has_live_task(old(self)@.tasks, id) ==> {
                let k = task_index(old(self)@.tasks, id);
                let tasks = old(self)@.tasks.update(k, updated_task(old(self)@.tasks[k], req, now));
                if req.name is Some && name_taken_by_other(old(self)@.tasks, req.name.unwrap()@, k) {
                    res matches Err(StoreError::DuplicateName)
                } else if req.dependency_ids is Some && has_dependency_cycle(tasks) {
                    res matches Err(StoreError::Cycle(e)) && exists|path: Seq<int>|
                        is_dependency_cycle(tasks, path) && e.path@ == path_ids(tasks, path)
                } else {
                    res is Ok && final(self)@.tasks == tasks
                }
            },
    {
        let k = match self.task_position(id) {
            Some(k) => k,
            None => {
                return Err(StoreError::NotFound);
            },
        };
        assert(task_index(self@.tasks, id) == k) by {
            let c = task_index(self@.tasks, id);
            if c != k {
                assert(self.tasks@[c].id != self.tasks@[k as int].id);
            }
        }
        if self.tasks[k].deleted_at.is_some() {
            return Err(StoreError::NotFound);
        }
        let UpdateTaskRequest {
            name,
            description,
            dependency_ids,
            schedule,
            enabled,
            payload,
            timeout_seconds,
            max_retries,
        } = req;
        let taken = match &name {
            Some(n) => self.name_in_use(n, Some(k)),
            None => false,
        };
        if taken {
            return Err(StoreError::DuplicateName);
        }
        let ghost before = *self;
        proof {
            if name is None {
                assert(!name_taken_by_other(before.tasks@, before.tasks@[k as int].name@, k as int)) by {
                    if name_taken_by_other(before.tasks@, before.tasks@[k as int].name@, k as int) {
                        let j = choose|j: int|
                            0 <= j < before.tasks@.len() && j != k && (
                            #[trigger] before.tasks@[j]).deleted_at is None && before.tasks@[j].name@
                                == before.tasks@[k as int].name@;
                        assert(before.tasks@[k as int].deleted_at is None);
                        assert(before.tasks@[j].name@ != before.tasks@[k as int].name@);
                    }
                }
            }
        }
        let ghost goal = before.tasks@.update(k as int, updated_task(before.tasks@[k as int], req, now));
        match dependency_ids {
            Some(deps) => {
                let mut other = deps;
                let was_enabled = self.tasks[k].enabled;
                core::mem::swap(&mut self.tasks[k].dependency_ids, &mut other);
                match enabled {
                    Some(e) => {
                        self.tasks[k].enabled = e;
                    },
                    None => {},
                }
                proof {
                    lemma_same_graph(self.tasks@, goal);
                    lemma_same_graph(goal, self.tasks@);
                }
                match validate(&self.tasks) {
                    Ok(()) => {},
                    Err(e) => {
                        proof {
                            let path = choose|path: Seq<int>|
                                is_dependency_cycle(self.tasks@, path) && e.path@ == path_ids(
                                    self.tasks@,
                                    path,
                                );
                            assert(is_dependency_cycle(goal, path) && e.path@ == path_ids(goal, path));
                        }
                        core::mem::swap(&mut self.tasks[k].dependency_ids, &mut other);
                        self.tasks[k].enabled = was_enabled;
                        assert(self.tasks@ =~= before.tasks@);
                        return Err(StoreError::Cycle(e));
                    },
                }
            },
            None => {
                match enabled {
                    Some(e) => {
                        self.tasks[k].enabled = e;
                    },
                    None => {},
                }
            },
        }
        let task = &mut self.tasks[k];
        match name {
            Some(n) => {
                task.name = n;
            },
            None => {},
        }
        match description {
            Some(d) => {
                task.description = Some(d);
            },
            None => {},
        }
        match schedule {
            Some(s) => {
                task.schedule = s;
            },
            None => {},
        }
        match payload {
            Some(p) => {
                task.payload = p;
            },
            None => {},
        }
        match timeout_seconds {
            Some(t) => {
                task.timeout_seconds = Some(t);
            },
            None => {},
        }
        match max_retries {
            Some(m) => {
                task.max_retries = Some(m);
            },
            None => {},
        }
        task.updated_at = now;
        assert(self.tasks@ =~= goal);
        proof {
            lemma_tasks_updated(before, *self, k as int);
        }
        Ok(())
    }

    /// Soft-deletes a task: it is marked as deleted at `now` and stays in
    /// the store. Returns whether a task that was not deleted had the id;
    /// otherwise nothing changes.
    pub fn delete_task(&mut self, id: ObjectId, now: Timestamp) -> (deleted: bool)
        requires
            old(self).wf(),
        ensures
            final(self).wf(),
            final(self).ids_left() == old(self).ids_left(),
            final(self)@.instances == old(self)@.instances,
            final(self)@.logs == old(self)@.logs,
            deleted == has_live_task(old(self)@.tasks, id),
            !deleted ==> final(self)@ == old(self)@,
            deleted ==> final(self)@.tasks == old(self)@.tasks.update(
                task_index(old(self)@.tasks, id),
                deleted_task(old(self)@.tasks[task_index(old(self)@.tasks, id)], now),
            ),
    {
        let k = match self.task_position(id) {
            Some(k) => k,
            None => {
                return false;
            },
        };
        assert(task_index(self@.tasks, id) == k) by {
            let c = task_index(self@.tasks, id);
            if c != k {
                assert(self.tasks@[c].id != self.tasks@[k as int].id);
            }
        }
        if self.tasks[k].deleted_at.is_some() {
            return false;
        }
        let ghost before = *self;
        let task = &mut self.tasks[k];
        task.deleted_at = Some(now);
        task.updated_at = now;
        proof {
            lemma_tasks_updated(before, *self, k as int);
        }
        true
    }
}

/// A store stays well-formed when one task is replaced by one with the
/// same id whose name, unless it is deleted, no other live task has.
proof fn lemma_tasks_updated(before: DataStore, after: DataStore, k: int)
    requires
        before.wf(),
        0 <= k < before.tasks@.len(),
        after.tasks@ == before.tasks@.update(k, after.tasks@[k]),
        after.tasks@.len() == before.tasks@.len(),
        after.instances@ == before.instances@,
        after.logs@ == before.logs@,
        after.next_id == before.next_id,
        after.tasks@[k].id == before.tasks@[k].id,
        after.tasks@[k].deleted_at is None ==> !name_taken_by_other(
            before.tasks@,
            after.tasks@[k].name@,
            k,
        ),
    ensures
        after.wf(),
{
    assert forall|i: int| 0 <= i < after.tasks@.len() implies issued(
        #[trigger] after.tasks@[i].id,
        after.next_id,
    ) by {
        assert(issued(before.tasks@[i].id, before.next_id));
    }
    assert forall|i: int| 0 <= i < after.tasks@.len() implies (#[trigger] after.tasks@[i]).id
        is Some by {
        assert(issued(before.tasks@[i].id, before.next_id));
    }
    assert forall|i: int, j: int|
        0 <= i < after.tasks@.len() && 0 <= j < after.tasks@.len() && i != j implies (
    #[trigger] after.tasks@[i]).id != (#[trigger] after.tasks@[j]).id by {
        assert(before.tasks@[i].id != before.tasks@[j].id);
    }
    assert forall|i: int, j: int|
        0 <= i < after.tasks@.len() && 0 <= j < after.tasks@.len() && i != j && (
        #[trigger] after.tasks@[i]).deleted_at is None && (#[trigger] after.tasks@[j]).deleted_at
            is None implies after.tasks@[i].name@ != after.tasks@[j].name@ by {
        if i == k {
            assert(before.tasks@[j] == after.tasks@[j]);
        } else if j == k {
            assert(before.tasks@[i] == after.tasks@[i]);
        } else {
            assert(before.tasks@[i] == after.tasks@[i]);
            assert(before.tasks@[j] == after.tasks@[j]);
        }
    }
}

} // verus!
