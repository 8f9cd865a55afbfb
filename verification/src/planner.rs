//! The schedule tick planner: from the definitions, the instances that
//! exist and the present moment, the ticks that are due now. The planner
//! changes nothing; what it lists still has to be created.

use crate::cron::{parse_cron, Calendar, CronExpr};
use crate::resolver::{eligible_in, is_eligible_among, recent_map};
use crate::types::{ObjectId, Schedule, Task, TaskInstance, Timestamp};
use chrono::{Datelike, Timelike};
use vstd::arithmetic::div_mod::lemma_mod_bound;
use vstd::prelude::*;
use vstd::string::StringSliceAdditionalSpecFns;
use vstd::utf8::encode_utf8;

verus! {

/// The calendar fields, in UTC, of the moment `millis` milliseconds after
/// the Unix epoch, where the calendar reaches that far.
pub uninterp spec fn utc_calendar(millis: i64) -> Option<Calendar>;

/// Splits a timestamp into its UTC calendar fields with chrono's
/// `DateTime::from_timestamp_millis` and the accessors of `Datelike` and
/// `Timelike`. The fields are a function of the timestamp alone; nothing
/// more is claimed of them. `None` stands for a moment outside the range
/// that chrono supports.
#[verifier::external_body]
pub(crate) fn utc_fields(millis: i64) -> (r: Option<Calendar>)
    ensures
        r == utc_calendar(millis),
{
    match chrono::DateTime::from_timestamp_millis(millis) {
        Some(t) => Some(
            Calendar {
                second: t.second() as u8,
                minute: t.minute() as u8,
                hour: t.hour() as u8,
                day: t.day() as u8,
                month: t.month() as u8,
                weekday: t.weekday().num_days_from_sunday() as u8,
            },
        ),
        None => None,
    }
}

/// An instance exists for the task `id` and the tick `t`.
pub open spec fn key_taken(instances: Seq<TaskInstance>, id: ObjectId, t: Timestamp) -> bool {
    exists|k: int|
        0 <= k < instances.len() && (#[trigger] instances[k]).task_id == id
            && instances[k].scheduled_time == t
}

/// The instance is a tick of task `id` that was planned, not a retry.
pub open spec fn is_tick(inst: TaskInstance, id: ObjectId) -> bool {
    inst.task_id == id && inst.retry_count == 0
}

/// `t` is the latest tick planned for task `id`.
pub open spec fn is_last_tick(instances: Seq<TaskInstance>, id: ObjectId, t: Timestamp) -> bool {
    &&& exists|k: int|
        0 <= k < instances.len() && is_tick(#[trigger] instances[k], id)
            && instances[k].scheduled_time == t
    &&& forall|j: int|
        0 <= j < instances.len() && is_tick(#[trigger] instances[j], id)
            ==> instances[j].scheduled_time <= t
}

/// The latest tick planned for task `id`, if any was.
pub open spec fn last_tick(instances: Seq<TaskInstance>, id: ObjectId) -> Option<Timestamp> {
    if exists|t: Timestamp| is_last_tick(instances, id, t) {
        Some(choose|t: Timestamp| is_last_tick(instances, id, t))
    } else {
        None
    }
}

/// The latest instant at or before `now` that lies a whole number of
/// intervals `d` after `base`.
pub open spec fn interval_tick(base: int, d: int, now: int) -> int {
    now - (now - base) % d
}

/// The start of the second that holds `now`.
pub open spec fn floor_second(now: int) -> int {
    now - now % 1000
}

/// The cron expression is well formed and admits a moment with these
/// calendar fields.
pub open spec fn cron_fires(text: Seq<char>, calendar: Calendar) -> bool {
    match parse_cron(encode_utf8(text)) {
        Some(fields) => fields.fires(calendar),
        None => false,
    }
}

/// The tick of the task that is due at `now`, if one is.
///
/// A one-shot task is due from its instant on, with that instant as its
/// tick. An interval task is due once a full interval has passed since its
/// latest planned tick, or since its creation if it has none; its tick is
/// then the most recent one that has come, so that ticks missed in between
/// are skipped, not replayed. An interval that is not positive never
/// fires. A cron task is due in each second that its expression admits,
/// with the start of that second as its tick; an expression that is not
/// well formed never fires.
pub open spec fn due_tick(
    task: Task,
    id: ObjectId,
    instances: Seq<TaskInstance>,
    now: Timestamp,
    calendar: Calendar,
) -> Option<Timestamp> {
    match task.schedule {
        Schedule::Once(t) => if t <= now {
            Some(t)
        } else {
            None
        },
        Schedule::Interval(d) => {
            let base = match last_tick(instances, id) {
                Some(t) => t,
                None => task.created_at,
            };
            if d > 0 && base + d <= now {
                Some(interval_tick(base as int, d as int, now as int) as i64)
            } else {
                None
            }
        },
        Schedule::Cron(text) => if cron_fires(text@, calendar) && floor_second(now as int)
            >= i64::MIN {
            Some(floor_second(now as int) as i64)
        } else {
            None
        },
    }
}

/// What the planner lists for one definition: the due tick of an enabled,
/// non-deleted task that has an id, unless an instance for that tick
/// exists already.
pub open spec fn candidate(
    task: Task,
    instances: Seq<TaskInstance>,
    now: Timestamp,
    calendar: Calendar,
) -> Option<(ObjectId, Timestamp)> {
    if task.active() && task.id is Some {
        match due_tick(task, task.id.unwrap(), instances, now, calendar) {
            Some(t) => if key_taken(instances, task.id.unwrap(), t) {
                None
            } else {
                Some((task.id.unwrap(), t))
            },
            None => None,
        }
    } else {
        None
    }
}

/// The candidates of the first `n` definitions, in their order.
pub open spec fn plan(
    defs: Seq<Task>,
    instances: Seq<TaskInstance>,
    now: Timestamp,
    calendar: Calendar,
    n: int,
) -> Seq<(ObjectId, Timestamp)>
    decreases n,
{
    if n <= 0 {
        Seq::empty()
    } else {
        let rest = plan(defs, instances, now, calendar, n - 1);
        match candidate(defs[n - 1], instances, now, calendar) {
            Some(c) => rest.push(c),
            None => rest,
        }
    }
}

/// Whether an instance exists for the task `id` and the tick `t`.
pub fn has_key(instances: &Vec<TaskInstance>, id: ObjectId, t: Timestamp) -> (r: bool)
    ensures
        r == key_taken(instances@, id, t),
{
    let mut k: usize = 0;
    while k < instances.len()
        invariant
            k <= instances.len(),
            forall|j: int|
                0 <= j < k ==> !((#[trigger] instances[j]).task_id == id
                    && instances[j].scheduled_time == t),
        decreases instances.len() - k,
    {
        if instances[k].task_id == id && instances[k].scheduled_time == t {
            return true;
        }
        k += 1;
    }
    false
}

/// The latest tick planned for task `id`, if any was.
pub fn last_materialized(instances: &Vec<TaskInstance>, id: ObjectId) -> (r: Option<Timestamp>)
    ensures
        r == last_tick(instances@, id),
{
    let mut best: Option<Timestamp> = None;
    let mut k: usize = 0;
    while k < instances.len()
        invariant
            k <= instances.len(),
            best is None ==> forall|j: int| 0 <= j < k ==> !is_tick(#[trigger] instances[j], id),
            best matches Some(t) ==> {
                &&& exists|m: int|
                    0 <= m < k && is_tick(#[trigger] instances[m], id)
                        && instances[m].scheduled_time == t
                &&& forall|j: int|
                    0 <= j < k && is_tick(#[trigger] instances[j], id)
                        ==> instances[j].scheduled_time <= t
            },
        decreases instances.len() - k,
    {
        let inst = &instances[k];
        if inst.task_id == id && inst.retry_count == 0 {
            let better = match best {
                Some(t) => inst.scheduled_time > t,
                None => true,
            };
            if better {
                best = Some(inst.scheduled_time);
            }
        }
        k += 1;
    }
    proof {
        match best {
            Some(t) => {
                assert(is_last_tick(instances@, id, t));
                let c = choose|c: Timestamp| is_last_tick(instances@, id, c);
                assert(c == t);
            },
            None => {
                assert forall|t: Timestamp| !is_last_tick(instances@, id, t) by {}
            },
        }
    }
    best
}

/// The start of the second that holds `now`, where a timestamp can hold
/// it.
fn second_start(now: Timestamp) -> (r: Option<Timestamp>)
    ensures
        r == if floor_second(now as int) >= i64::MIN {
            Some(floor_second(now as int) as i64)
        } else {
            None::<Timestamp>
        },
{
    if now >= 0 {
        Some(now - now % 1000)
    } else {
        let p: i128 = -(now as i128);
        let pm: i128 = p % 1000;
        let m: i128 = if pm == 0 {
            0
        } else {
            1000 - pm
        };
        let start: i128 = now as i128 - m;
        if start >= i64::MIN as i128 {
            Some(start as i64)
        } else {
            None
        }
    }
}

/// The tick of the task that is due at `now`, if one is.
pub fn next_due(
    task: &Task,
    id: ObjectId,
    instances: &Vec<TaskInstance>,
    now: Timestamp,
    calendar: &Calendar,
) -> (r: Option<Timestamp>)
    ensures
        r == due_tick(*task, id, instances@, now, *calendar),
{
    match &task.schedule {
        Schedule::Once(t) => if *t <= now {
            Some(*t)
        } else {
            None
        },
        Schedule::Interval(d) => {
            let base = match last_materialized(instances, id) {
                Some(t) => t,
                None => task.created_at,
            };
            if *d > 0 && base as i128 + *d as i128 <= now as i128 {
                let diff: i128 = now as i128 - base as i128;
                let rem: i128 = diff % (*d as i128);
                proof {
                    lemma_mod_bound(diff as int, *d as int);
                }
                Some((now as i128 - rem) as i64)
            } else {
                None
            }
        },
        Schedule::Cron(text) => {
            let fires = match CronExpr::parse(text.as_str()) {
                Some(e) => e.matches(calendar),
                None => false,
            };
            if fires {
                second_start(now)
            } else {
                None
            }
        },
    }
}

/// The ticks that are due at `now`, given the calendar fields of `now`:
/// one pair of task id and tick for each enabled, non-deleted definition
/// that is due and has no instance for that tick yet, in the order of the
/// definitions. At most one tick per task is listed, however many were
/// missed.
pub fn due_tasks_at(
    definitions: &Vec<Task>,
    instances: &Vec<TaskInstance>,
    now: Timestamp,
    calendar: &Calendar,
) -> (due: Vec<(ObjectId, Timestamp)>)
    ensures
        due@ == plan(definitions@, instances@, now, *calendar, definitions@.len() as int),
{
    let mut due: Vec<(ObjectId, Timestamp)> = Vec::new();
    let mut i: usize = 0;
    while i < definitions.len()
        invariant
            i <= definitions.len(),
            due@ == plan(definitions@, instances@, now, *calendar, i as int),
        decreases definitions.len() - i,
    {
        let task = &definitions[i];
        if task.is_active() {
            match task.id {
                Some(id) => {
                    match next_due(task, id, instances, now, calendar) {
                        Some(t) => {
                            if !has_key(instances, id, t) {
                                due.push((id, t));
                            }
                        },
                        None => {},
                    }
                },
                None => {},
            }
        }
        i += 1;
    }
    due
}

/// The ticks that are due at `now`, with the calendar fields of `now`
/// taken in UTC. For a moment beyond the calendar's reach nothing is
/// listed.
pub fn due_tasks(definitions: &Vec<Task>, instances: &Vec<TaskInstance>, now: Timestamp) -> (due:
    Vec<(ObjectId, Timestamp)>)
    ensures
        match utc_calendar(now) {
            Some(c) => due@ == plan(definitions@, instances@, now, c, definitions@.len() as int),
            None => due@.len() == 0,
        },
{
    match utc_fields(now) {
        Some(calendar) => due_tasks_at(definitions, instances, now, &calendar),
        None => Vec::new(),
    }
}


/// What is ready for one definition: its candidate, provided that of each
/// task it depends on the most recent instance satisfies the dependency.
pub open spec fn ready(
    task: Task,
    instances: Seq<TaskInstance>,
    now: Timestamp,
    calendar: Calendar,
) -> Option<(ObjectId, Timestamp)> {
    if eligible_in(task, recent_map(instances), now) {
        candidate(task, instances, now, calendar)
    } else {
        None
    }
}

/// What is ready among the first `n` definitions, in their order.
pub open spec fn ready_plan(
    defs: Seq<Task>,
    instances: Seq<TaskInstance>,
    now: Timestamp,
    calendar: Calendar,
    n: int,
) -> Seq<(ObjectId, Timestamp)>
    decreases n,
{
    if n <= 0 {
        Seq::empty()
    } else {
        let rest = ready_plan(defs, instances, now, calendar, n - 1);
        match ready(defs[n - 1], instances, now, calendar) {
            Some(c) => rest.push(c),
            None => rest,
        }
    }
}

/// The ticks that are due at `now` and whose tasks are eligible: what
/// `due_tasks_at` lists, less the tasks with a dependency whose most
/// recent instance is missing, did not succeed, or is too old.
pub fn ready_tasks(
    definitions: &Vec<Task>,
    instances: &Vec<TaskInstance>,
    now: Timestamp,
    calendar: &Calendar,
) -> (due: Vec<(ObjectId, Timestamp)>)
    ensures
        due@ == ready_plan(definitions@, instances@, now, *calendar, definitions@.len() as int),
{
    let mut due: Vec<(ObjectId, Timestamp)> = Vec::new();
    let mut i: usize = 0;
    while i < definitions.len()
        invariant
            i <= definitions.len(),
            due@ == ready_plan(definitions@, instances@, now, *calendar, i as int),
        decreases definitions.len() - i,
    {
        let task = &definitions[i];
        if task.is_active() {
            match task.id {
                Some(id) => {
                    match next_due(task, id, instances, now, calendar) {
                        Some(t) => {
                            if !has_key(instances, id, t) && is_eligible_among(task, instances, now) {
                                due.push((id, t));
                            }
                        },
                        None => {},
                    }
                },
                None => {},
            }
        }
        i += 1;
    }
    due
}

} // verus!
