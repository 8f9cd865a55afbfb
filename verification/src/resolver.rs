//! The dependency graph over task definitions: validation against cycles,
//! and the rule that decides whether a task's dependencies are satisfied.

use crate::graph::{cyclic, find_cycle, has_edge, is_cycle, next_pos};
use crate::types::{ObjectId, Schedule, Task, TaskInstance, TaskStatus, Timestamp};
use vstd::prelude::*;

verus! {

/// A cycle among the dependencies, as the ids of its tasks: each depends on
/// the one after it, and the last on the first.
#[derive(Clone, Debug)]
pub struct CycleError {
    pub path: Vec<ObjectId>,
}

/// Definition `i` depends on definition `j`: both are enabled and not
/// deleted, and the id of `j` is listed among the dependencies of `i`.
pub open spec fn depends(defs: Seq<Task>, i: int, j: int) -> bool {
    &&& 0 <= i < defs.len()
    &&& 0 <= j < defs.len()
    &&& defs[i].active()
    &&& defs[j].active()
    &&& defs[j].id matches Some(id) && defs[i].depends_on_id(id)
}

/// `path` lists positions of definitions that depend on each other in a
/// circle.
pub open spec fn is_dependency_cycle(defs: Seq<Task>, path: Seq<int>) -> bool {
    path.len() > 0 && forall|k: int|
        0 <= k < path.len() ==> depends(defs, #[trigger] path[k], path[next_pos(k, path.len() as int)])
}

/// The dependency relation of the definitions contains a cycle.
pub open spec fn has_dependency_cycle(defs: Seq<Task>) -> bool {
    exists|path: Seq<int>| is_dependency_cycle(defs, path)
}

/// The ids of the definitions at the positions of `path`.
pub open spec fn path_ids(defs: Seq<Task>, path: Seq<int>) -> Seq<ObjectId> {
    Seq::new(path.len(), |k: int| defs[path[k]].id.unwrap())
}

/// The adjacency lists are those of the dependency relation.
spec fn mirrors(adj: Seq<Vec<usize>>, defs: Seq<Task>) -> bool {
    &&& adj.len() == defs.len()
    &&& forall|i: usize, j: usize| has_edge(adj, i, j) <==> depends(defs, i as int, j as int)
}

proof fn lemma_cycle_to_dependency_cycle(adj: Seq<Vec<usize>>, defs: Seq<Task>, c: Seq<usize>)
    requires
        mirrors(adj, defs),
        is_cycle(adj, c),
    ensures
        is_dependency_cycle(defs, Seq::new(c.len(), |k: int| c[k] as int)),
{
    let path = Seq::new(c.len(), |k: int| c[k] as int);
    assert forall|k: int| 0 <= k < path.len() implies depends(
        defs,
        #[trigger] path[k],
        path[next_pos(k, path.len() as int)],
    ) by {
        assert(has_edge(adj, c[k], c[next_pos(k, c.len() as int)]));
    }
}

proof fn lemma_dependency_cycle_to_cycle(adj: Seq<Vec<usize>>, defs: Seq<Task>, path: Seq<int>)
    requires
        mirrors(adj, defs),
        is_dependency_cycle(defs, path),
        defs.len() <= usize::MAX,
    ensures
        cyclic(adj),
{
    let c = Seq::new(path.len(), |k: int| path[k] as usize);
    assert forall|k: int| 0 <= k < c.len() implies has_edge(
        adj,
        #[trigger] c[k],
        c[next_pos(k, c.len() as int)],
    ) by {
        let m = next_pos(k, path.len() as int);
        assert(depends(defs, path[k], path[m]));
        assert(depends(defs, path[m], path[next_pos(m, path.len() as int)]));
        assert(c[k] as int == path[k]);
        assert(c[m] as int == path[m]);
    }
    assert(is_cycle(adj, c));
}

/// The positions that definition `i` depends on.
fn dependencies_of(defs: &Vec<Task>, i: usize) -> (row: Vec<usize>)
    requires
        i < defs.len(),
    ensures
        forall|j: usize| row@.contains(j) <==> depends(defs@, i as int, j as int),
{
    let mut row: Vec<usize> = Vec::new();
    if !defs[i].is_active() {
        return row;
    }
    let mut j: usize = 0;
    while j < defs.len()
        invariant
            j <= defs.len(),
            i < defs.len(),
            defs[i as int].active(),
            forall|x: usize| row@.contains(x) <==> x < j && depends(defs@, i as int, x as int),
        decreases defs.len() - j,
    {
        let ghost before = row@;
        let hit = defs[j].is_active() && match defs[j].id {
            Some(id) => defs[i].has_dependency(id),
            None => false,
        };
        if hit {
            row.push(j);
            assert forall|x: usize| row@.contains(x) <==> x < j + 1 && depends(
                defs@,
                i as int,
                x as int,
            ) by {
                if row@.contains(x) {
                    let p = choose|p: int| 0 <= p < row@.len() && row@[p] == x;
                    if p < before.len() {
                        assert(before[p] == x);
                        assert(before.contains(x));
                    }
                }
                if x < j + 1 && depends(defs@, i as int, x as int) {
                    if x == j {
                        assert(row@[row@.len() - 1] == x);
                    } else {
                        assert(before.contains(x));
                        let p = choose|p: int| 0 <= p < before.len() && before[p] == x;
                        assert(row@[p] == x);
                    }
                }
            }
        }
        j += 1;
    }
    row
}

/// The adjacency lists of the dependency relation.
fn dependency_graph(defs: &Vec<Task>) -> (adj: Vec<Vec<usize>>)
    ensures
        mirrors(adj@, defs@),
{
    let mut adj: Vec<Vec<usize>> = Vec::new();
    let mut i: usize = 0;
    while i < defs.len()
        invariant
            i <= defs.len(),
            adj.len() == i,
            forall|a: usize, b: usize|
                a < i ==> (adj[a as int]@.contains(b) <==> depends(defs@, a as int, b as int)),
        decreases defs.len() - i,
    {
        let row = dependencies_of(defs, i);
        adj.push(row);
        i += 1;
    }
    adj
}

/// The ids of the definitions on a cycle.
fn ids_along(defs: &Vec<Task>, c: &Vec<usize>) -> (ids: Vec<ObjectId>)
    requires
        forall|k: int| 0 <= k < c.len() ==> c[k] < defs.len() && defs[c[k] as int].id is Some,
    ensures
        ids@ == path_ids(defs@, Seq::new(c@.len(), |k: int| c[k] as int)),
{
    let mut ids: Vec<ObjectId> = Vec::new();
    let mut k: usize = 0;
    while k < c.len()
        invariant
            k <= c.len(),
            forall|k: int| 0 <= k < c.len() ==> c[k] < defs.len() && defs[c[k] as int].id is Some,
            ids.len() == k,
            forall|m: int| 0 <= m < k ==> ids[m] == defs[c[m] as int].id.unwrap(),
        decreases c.len() - k,
    {
        match defs[c[k]].id {
            Some(id) => {
                ids.push(id);
            },
            None => {},
        }
        k += 1;
    }
    assert(ids@ =~= path_ids(defs@, Seq::new(c@.len(), |k: int| c[k] as int)));
    ids
}

/// Checks the dependency relation of the definitions for cycles. The graph
/// has an edge from each enabled, non-deleted definition to each enabled,
/// non-deleted definition whose id it lists as a dependency; a definition
/// that lists its own id is a cycle of one.
///
/// Returns `Ok` exactly when there is no cycle; otherwise the error holds
/// the ids along one cycle.
pub fn validate(definitions: &Vec<Task>) -> (res: Result<(), CycleError>)
    ensures
        res is Ok <==> !has_dependency_cycle(definitions@),
        res matches Err(e) ==> exists|path: Seq<int>|
            is_dependency_cycle(definitions@, path) && e.path@ == path_ids(definitions@, path),
{
    let adj = dependency_graph(definitions);
    match find_cycle(&adj) {
        Some(c) => {
            proof {
                lemma_cycle_to_dependency_cycle(adj@, definitions@, c@);
                let path = Seq::new(c@.len(), |k: int| c[k] as int);
                assert forall|k: int| 0 <= k < c.len() implies c[k] < definitions.len()
                    && definitions[c[k] as int].id is Some by {
                    let p = if k == 0 {
                        c.len() - 1
                    } else {
                        k - 1
                    };
                    assert(next_pos(p, c.len() as int) == k);
                    assert(depends(definitions@, path[p], path[next_pos(p, path.len() as int)]));
                }
            }
            let ids = ids_along(definitions, &c);
            Err(CycleError { path: ids })
        },
        None => {
            proof {
                if has_dependency_cycle(definitions@) {
                    let path = choose|path: Seq<int>| is_dependency_cycle(definitions@, path);
                    assert(definitions@.len() == definitions.len());
                    lemma_dependency_cycle_to_cycle(adj@, definitions@, path);
                }
            }
            Ok(())
        },
    }
}

/// Length in milliseconds of one schedule period, where the schedule has
/// one: the distance of an interval schedule with a positive distance.
pub open spec fn schedule_period(schedule: Schedule) -> Option<int> {
    match schedule {
        Schedule::Interval(d) if d > 0 => Some(d as int),
        _ => None,
    }
}

/// The instance satisfies a dependency of `task` at `now`: it succeeded,
/// and it was scheduled no longer ago than one schedule period of `task`.
/// Where the task's schedule has no period, age does not count.
pub open spec fn satisfies(task: Task, inst: TaskInstance, now: Timestamp) -> bool {
    &&& inst.status == TaskStatus::Success
    &&& match schedule_period(task.schedule) {
        Some(p) => inst.scheduled_time >= now - p,
        None => true,
    }
}

/// Position `k` holds the entry for `id`: the first instance of that task.
pub open spec fn is_entry(latest: Seq<TaskInstance>, id: ObjectId, k: int) -> bool {
    &&& 0 <= k < latest.len()
    &&& latest[k].task_id == id
    &&& forall|j: int| 0 <= j < k ==> (#[trigger] latest[j]).task_id != id
}

/// The list read as a map from task id to that task's latest instance:
/// the first entry of each task counts.
pub open spec fn latest_map(latest: Seq<TaskInstance>) -> Map<ObjectId, TaskInstance> {
    Map::new(
        |id: ObjectId| exists|k: int| is_entry(latest, id, k),
        |id: ObjectId| latest[choose|k: int| is_entry(latest, id, k)],
    )
}

/// Every dependency of `task` has a latest instance, and that instance
/// satisfies it. A dependency without history leaves the task ineligible.
pub open spec fn eligible_in(task: Task, latest: Map<ObjectId, TaskInstance>, now: Timestamp) -> bool {
    forall|i: int|
        0 <= i < task.dependency_ids@.len() ==> latest.dom().contains(
            #[trigger] task.dependency_ids@[i],
        ) && satisfies(task, latest[task.dependency_ids@[i]], now)
}

/// Whether the instance satisfies a dependency of `task` at `now`.
pub fn dependency_satisfied(task: &Task, inst: &TaskInstance, now: Timestamp) -> (r: bool)
    ensures
        r == satisfies(*task, *inst, now),
{
    if inst.status != TaskStatus::Success {
        return false;
    }
    match &task.schedule {
        Schedule::Interval(d) => {
            if *d > 0 {
                match now.checked_sub(*d) {
                    Some(oldest) => inst.scheduled_time >= oldest,
                    None => true,
                }
            } else {
                true
            }
        },
        _ => true,
    }
}

/// Position of the entry for `id`, if there is one.
pub fn find_entry(latest: &Vec<TaskInstance>, id: ObjectId) -> (r: Option<usize>)
    ensures
        r matches Some(k) ==> is_entry(latest@, id, k as int),
        r is None ==> forall|k: int| 0 <= k < latest.len() ==> latest[k].task_id != id,
        r is Some <==> latest_map(latest@).dom().contains(id),
        r matches Some(k) ==> latest_map(latest@)[id] == latest[k as int],
{
    let mut k: usize = 0;
    while k < latest.len()
        invariant
            k <= latest.len(),
            forall|j: int| 0 <= j < k ==> (#[trigger] latest[j]).task_id != id,
        decreases latest.len() - k,
    {
        if latest[k].task_id == id {
            proof {
                assert(is_entry(latest@, id, k as int));
                let c = choose|c: int| is_entry(latest@, id, c);
                assert(c == k) by {
                    if c < k {
                        assert(latest[c].task_id != id);
                    }
                    if k < c {
                        assert(latest@[k as int].task_id != id);
                    }
                }
            }
            return Some(k);
        }
        k += 1;
    }
    None
}

/// Whether `task` may run at `now`, given the latest instance of each task
/// it depends on. In `latest`, the first entry of each task counts.
///
/// True exactly when every dependency id has an entry that succeeded and
/// is not older than one schedule period of `task`. A task without
/// dependencies is eligible.
pub fn is_eligible(task: &Task, latest: &Vec<TaskInstance>, now: Timestamp) -> (r: bool)
    ensures
        r == eligible_in(*task, latest_map(latest@), now),
{
    let mut i: usize = 0;
    while i < task.dependency_ids.len()
        invariant
            i <= task.dependency_ids.len(),
            forall|j: int|
                0 <= j < i ==> latest_map(latest@).dom().contains(
                    #[trigger] task.dependency_ids@[j],
                ) && satisfies(*task, latest_map(latest@)[task.dependency_ids@[j]], now),
        decreases task.dependency_ids.len() - i,
    {
        let id = task.dependency_ids[i];
        match find_entry(latest, id) {
            Some(k) => {
                if !dependency_satisfied(task, &latest[k], now) {
                    assert(!satisfies(*task, latest_map(latest@)[task.dependency_ids@[i as int]], now));
                    return false;
                }
            },
            None => {
                assert(!latest_map(latest@).dom().contains(task.dependency_ids@[i as int]));
                return false;
            },
        }
        i += 1;
    }
    true
}

/// Position `k` holds the most recent instance of task `id`: none of that
/// task is scheduled later, and none before it in the list as late.
pub open spec fn is_most_recent(instances: Seq<TaskInstance>, id: ObjectId, k: int) -> bool {
    &&& 0 <= k < instances.len()
    &&& instances[k].task_id == id
    &&& forall|j: int|
        0 <= j < instances.len() && (#[trigger] instances[j]).task_id == id
            ==> instances[j].scheduled_time <= instances[k].scheduled_time
    &&& forall|j: int|
        0 <= j < k && (#[trigger] instances[j]).task_id == id ==> instances[j].scheduled_time
            < instances[k].scheduled_time
}

/// The instances read as a map from task id to the most recent instance
/// of that task.
pub open spec fn recent_map(instances: Seq<TaskInstance>) -> Map<ObjectId, TaskInstance> {
    Map::new(
        |id: ObjectId| exists|k: int| is_most_recent(instances, id, k),
        |id: ObjectId| instances[choose|k: int| is_most_recent(instances, id, k)],
    )
}

/// Position of the most recent instance of task `id`, if the task has
/// any.
pub fn most_recent(instances: &Vec<TaskInstance>, id: ObjectId) -> (r: Option<usize>)
    ensures
        r matches Some(k) ==> is_most_recent(instances@, id, k as int),
        r is None ==> forall|k: int| 0 <= k < instances.len() ==> instances[k].task_id != id,
        r is Some <==> recent_map(instances@).dom().contains(id),
        r matches Some(k) ==> recent_map(instances@)[id] == instances[k as int],
{
    let mut best: Option<usize> = None;
    let mut k: usize = 0;
    while k < instances.len()
        invariant
            k <= instances.len(),
            best is None ==> forall|j: int| 0 <= j < k ==> (#[trigger] instances[j]).task_id != id,
            best matches Some(b) ==> {
                &&& b < k
                &&& instances[b as int].task_id == id
                &&& forall|j: int|
                    0 <= j < k && (#[trigger] instances[j]).task_id == id
                        ==> instances[j].scheduled_time <= instances[b as int].scheduled_time
                &&& forall|j: int|
                    0 <= j < b && (#[trigger] instances[j]).task_id == id
                        ==> instances[j].scheduled_time < instances[b as int].scheduled_time
            },
        decreases instances.len() - k,
    {
        if instances[k].task_id == id {
            let better = match best {
                Some(b) => instances[k].scheduled_time > instances[b].scheduled_time,
                None => true,
            };
            if better {
                best = Some(k);
            }
        }
        k += 1;
    }
    proof {
        match best {
            Some(b) => {
                assert(is_most_recent(instances@, id, b as int));
                let c = choose|c: int| is_most_recent(instances@, id, c);
                assert(c == b) by {
                    if c < b {
                        assert(instances@[c].scheduled_time < instances@[b as int].scheduled_time);
                        assert(instances@[b as int].scheduled_time <= instances@[c].scheduled_time);
                    }
                    if b < c {
                        assert(instances@[b as int].scheduled_time < instances@[c].scheduled_time);
                        assert(instances@[c].scheduled_time <= instances@[b as int].scheduled_time);
                    }
                }
            },
            None => {
                assert forall|c: int| !is_most_recent(instances@, id, c) by {
                    if 0 <= c < instances@.len() {
                        assert(instances@[c].task_id != id);
                    }
                }
            },
        }
    }
    best
}

/// Whether `task` may run at `now`, given all instances that exist: of
/// each task it depends on, the most recent instance counts.
///
/// True exactly when every dependency id has a most recent instance that
/// succeeded and is not older than one schedule period of `task`.
pub fn is_eligible_among(task: &Task, instances: &Vec<TaskInstance>, now: Timestamp) -> (r: bool)
    ensures
        r == eligible_in(*task, recent_map(instances@), now),
{
    let mut i: usize = 0;
    while i < task.dependency_ids.len()
        invariant
            i <= task.dependency_ids.len(),
            forall|j: int|
                0 <= j < i ==> recent_map(instances@).dom().contains(
                    #[trigger] task.dependency_ids@[j],
                ) && satisfies(*task, recent_map(instances@)[task.dependency_ids@[j]], now),
        decreases task.dependency_ids.len() - i,
    {
        let id = task.dependency_ids[i];
        match most_recent(instances, id) {
            Some(k) => {
                if !dependency_satisfied(task, &instances[k], now) {
                    assert(!satisfies(
                        *task,
                        recent_map(instances@)[task.dependency_ids@[i as int]],
                        now,
                    ));
                    return false;
                }
            },
            None => {
                assert(!recent_map(instances@).dom().contains(task.dependency_ids@[i as int]));
                return false;
            },
        }
        i += 1;
    }
    true
}

} // verus!
