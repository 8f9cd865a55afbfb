//! The scheduling engine: it plans the ticks that are due, takes the
//! executors' claims and reports, supervises timeouts, and after every
//! instance that ends writes the log entry and, after a failure, enqueues
//! the retry.

use crate::cron::Calendar;
use crate::lifecycle::{timeout_text, BackoffPolicy, ExecutionError};
use crate::planner::{key_taken, ready_plan, ready_tasks, utc_calendar, utc_fields};
use crate::store::{
    has_instance,
    has_task,
    instance_index,
    is_logged,
    log_of,
    record_index,
    stored_instance,
    task_index,
    timeout_of,
    DataStore,
    StoreModel,
};
use crate::types::{ExecutionResult, ObjectId, TaskInstance, TaskStatus, Timestamp, TriggeredBy};
use vstd::prelude::*;

verus! {

/// A tick that the planner found ready, and the instance created for it.
/// The instance is missing where one existed already, or where the store
/// had no identifier left.
#[derive(Clone, Copy, Debug, PartialEq, Eq, Structural)]
pub struct Materialized {
    pub task_id: ObjectId,
    pub scheduled_time: Timestamp,
    pub instance_id: Option<ObjectId>,
}

/// What followed the end of an instance: the log entry that records it,
/// and the instance that retries it.
#[derive(Clone, Copy, Debug, PartialEq, Eq, Structural)]
pub struct Settlement {
    pub log_id: Option<ObjectId>,
    pub retry_id: Option<ObjectId>,
}

/// The instances after the first `n` materialized ticks were created.
pub open spec fn grown(
    instances: Seq<TaskInstance>,
    made: Seq<Materialized>,
    now: Timestamp,
    n: int,
) -> Seq<TaskInstance>
    decreases n,
{
    if n <= 0 {
        instances
    } else {
        let rest = grown(instances, made, now, n - 1);
        match made[n - 1].instance_id {
            Some(id) => rest.push(
                stored_instance(id, made[n - 1].task_id, made[n - 1].scheduled_time, 0, now),
            ),
            None => rest,
        }
    }
}

/// How many of the first `n` materialized ticks got an instance.
pub open spec fn created(made: Seq<Materialized>, n: int) -> nat
    decreases n,
{
    if n <= 0 {
        0
    } else {
        created(made, n - 1) + if made[n - 1].instance_id is Some {
            1nat
        } else {
            0nat
        }
    }
}

/// The contents of the store after the end of the instance at position
/// `k` was settled with the given outcome: a retry, where one was
/// created, is appended to the instances, and a log entry, where one was
/// written, to the log.
pub open spec fn after_settlement(
    v: StoreModel,
    k: int,
    policy: BackoffPolicy,
    now: Timestamp,
    out: Settlement,
) -> StoreModel {
    let inst = v.instances[k];
    let next = inst.successor(policy, now);
    StoreModel {
        tasks: v.tasks,
        instances: match out.retry_id {
            Some(rid) => v.instances.push(
                stored_instance(rid, next.task_id, next.scheduled_time, next.retry_count, now),
            ),
            None => v.instances,
        },
        logs: if out.log_id is Some && !is_logged(v.logs, inst.id.unwrap()) {
            v.logs.push(
                log_of(
                    inst,
                    v.tasks[task_index(v.tasks, inst.task_id)].name,
                    out.log_id.unwrap(),
                    TriggeredBy::Scheduler,
                ),
            )
        } else {
            v.logs
        },
    }
}

/// The outcome that settling the instance at position `k` owes, in a
/// store with `ids_left` identifiers to hand out.
///
/// An instance that is logged already keeps its entry. Otherwise an entry
/// is written if the task is known and an identifier is left. A retry is
/// created if the task is known, the instance failed with its retry count
/// below the task's limit, no instance exists for the retry's tick, and
/// an identifier is left after the log entry.
pub open spec fn settlement_owed(
    v: StoreModel,
    ids_left: nat,
    k: int,
    policy: BackoffPolicy,
    now: Timestamp,
    out: Settlement,
) -> bool {
    let inst = v.instances[k];
    let next = inst.successor(policy, now);
    let known = has_task(v.tasks, inst.task_id);
    let logged = is_logged(v.logs, inst.id.unwrap());
    let writes = !logged && known && ids_left > 0;
    let left = if writes {
        ids_left - 1
    } else {
        ids_left as int
    };
    &&& logged ==> out.log_id == v.logs[record_index(v.logs, inst.id.unwrap())].id
    &&& !logged ==> (out.log_id is Some <==> writes)
    &&& out.retry_id is Some <==> known && inst.retryable(v.tasks[task_index(v.tasks, inst.task_id)])
        && !key_taken(v.instances, next.task_id, next.scheduled_time) && left > 0
}

/// How many identifiers a settlement with the given outcome took.
pub open spec fn ids_used(v: StoreModel, k: int, out: Settlement) -> nat {
    let wrote: nat = if out.log_id is Some && !is_logged(v.logs, v.instances[k].id.unwrap()) {
        1
    } else {
        0
    };
    let retried: nat = if out.retry_id is Some {
        1
    } else {
        0
    };
    wrote + retried
}

/// The contents with the instance at position `k` replaced.
pub open spec fn with_instance(v: StoreModel, k: int, inst: TaskInstance) -> StoreModel {
    StoreModel { tasks: v.tasks, instances: v.instances.update(k, inst), logs: v.logs }
}

/// What the timeout supervision of the instance at position `k` does at
/// `now`, from the contents `before` with `left` identifiers to hand out
/// to the contents `after` with `left_after`, answering `r`.
///
/// An instance that is running and has run for longer than its task
/// allows is failed, ending at `now` with an error text and no output, and
/// is settled; the timeout is signalled. Any other instance stays as it
/// is, and nothing else changes.
pub open spec fn supervised(
    before: StoreModel,
    left: nat,
    after: StoreModel,
    left_after: nat,
    k: int,
    policy: BackoffPolicy,
    now: Timestamp,
    r: (Option<ExecutionError>, Settlement),
) -> bool {
    let inst = before.instances[k];
    if inst.overdue(timeout_of(before.tasks, inst.task_id), now) {
        &&& r.0 == Some(ExecutionError::Timeout)
        &&& after.instances.len() > k
        &&& after.instances[k].result matches Some(res)
        &&& res.output is None
        &&& res.exit_code is None
        &&& (res.error matches Some(m) && m@ == timeout_text())
        &&& settlement_owed(
            with_instance(before, k, inst.reported(TaskStatus::Failed, res, now)),
            left,
            k,
            policy,
            now,
            r.1,
        )
        &&& after == after_settlement(
            with_instance(before, k, inst.reported(TaskStatus::Failed, res, now)),
            k,
            policy,
            now,
            r.1,
        )
        &&& left_after == left - ids_used(
            with_instance(before, k, inst.reported(TaskStatus::Failed, res, now)),
            k,
            r.1,
        )
    } else {
        &&& r == (None::<ExecutionError>, Settlement { log_id: None, retry_id: None })
        &&& after == before
        &&& left_after == left
    }
}

/// The engine: a store, and the policy for scheduling retries.
pub struct Scheduler {
    pub store: DataStore,
    pub backoff: BackoffPolicy,
}

/// What one planning tick does: `made` lists the ticks that were ready
/// before, each with the instance created for it, and the store has grown
/// by those instances and by nothing else.
pub open spec fn ticked(
    before: Scheduler,
    after: Scheduler,
    now: Timestamp,
    calendar: Calendar,
    made: Seq<Materialized>,
) -> bool {
    let due = ready_plan(
        before.store@.tasks,
        before.store@.instances,
        now,
        calendar,
        before.store@.tasks.len() as int,
    );
    &&& after.backoff == before.backoff
    &&& after.store@.tasks == before.store@.tasks
    &&& after.store@.logs == before.store@.logs
    &&& made.len() == due.len()
    &&& forall|i: int|
        0 <= i < made.len() ==> {
            &&& (#[trigger] made[i]).task_id == due[i].0
            &&& made[i].scheduled_time == due[i].1
            &&& made[i].instance_id is Some <==> !key_taken(
                grown(before.store@.instances, made, now, i),
                due[i].0,
                due[i].1,
            ) && before.store.ids_left() > created(made, i)
        }
    &&& after.store@.instances == grown(before.store@.instances, made, now, made.len() as int)
    &&& after.store.ids_left() == before.store.ids_left() - created(made, made.len() as int)
}

impl Scheduler {
    /// An engine over an empty store.
    pub fn new(backoff: BackoffPolicy) -> (s: Scheduler)
        ensures
            s.store.wf(),
            s.backoff == backoff,
            s.store@.tasks.len() == 0,
            s.store@.instances.len() == 0,
            s.store@.logs.len() == 0,
            s.store.ids_left() == u64::MAX,
    {
        Scheduler { store: DataStore::new(), backoff }
    }

    /// One planning tick at `now`, whose calendar fields are `calendar`:
    /// creates a pending instance for every tick that is due and whose
    /// task is eligible, as the definitions and instances stand before
    /// the call. Where an instance exists already for a tick, or no
    /// identifier is left, none is created; the tick is still listed.
    pub fn tick(&mut self, now: Timestamp, calendar: &Calendar) -> (made: Vec<Materialized>)
        requires
            old(self).store.wf(),
        ensures
            final(self).store.wf(),
            ticked(*old(self), *final(self), now, *calendar, made@),
    {
        let due = ready_tasks(self.store.tasks(), self.store.instances(), now, calendar);
        let mut made: Vec<Materialized> = Vec::new();
        let mut i: usize = 0;
        while i < due.len()
            invariant
                i <= due.len(),
                made@.len() == i,
                self.store.wf(),
                self.backoff == old(self).backoff,
                self.store@.tasks == old(self).store@.tasks,
                self.store@.logs == old(self).store@.logs,
                self.store@.instances == grown(old(self).store@.instances, made@, now, i as int),
                self.store.ids_left() == old(self).store.ids_left() - created(made@, i as int),
                forall|j: int|
                    0 <= j < i ==> {
                        &&& (#[trigger] made@[j]).task_id == due@[j].0
                        &&& made@[j].scheduled_time == due@[j].1
                        &&& made@[j].instance_id is Some <==> !key_taken(
                            grown(old(self).store@.instances, made@, now, j),
                            due@[j].0,
                            due@[j].1,
                        ) && old(self).store.ids_left() > created(made@, j)
                    },
            decreases due.len() - i,
        {
            let (task_id, scheduled_time) = due[i];
            let ghost before = made@;
            let instance_id = match self.store.create_task_instance(task_id, scheduled_time, 0, now) {
                Ok(id) => Some(id),
                Err(_) => None,
            };
            made.push(Materialized { task_id, scheduled_time, instance_id });
            proof {
                lemma_grown_prefix(old(self).store@.instances, before, made@, now, i as int);
                assert forall|j: int| 0 <= j <= i implies grown(
                    old(self).store@.instances,
                    made@,
                    now,
                    j,
                ) == grown(old(self).store@.instances, before, now, j) && created(made@, j)
                    == created(before, j) by {
                    lemma_grown_prefix(old(self).store@.instances, before, made@, now, j);
                }
            }
            i += 1;
        }
        made
    }

    /// One planning tick at `now`, with the calendar fields of `now` taken
    /// in UTC; see `tick`. For a moment beyond the calendar's reach
    /// nothing is planned.
    pub fn tick_utc(&mut self, now: Timestamp) -> (made: Vec<Materialized>)
        requires
            old(self).store.wf(),
        ensures
            final(self).store.wf(),
            match utc_calendar(now) {
                Some(calendar) => ticked(*old(self), *final(self), now, calendar, made@),
                None => made@.len() == 0 && *final(self) == *old(self),
            },
    {
        match utc_fields(now) {
            Some(calendar) => self.tick(now, &calendar),
            None => Vec::new(),
        }
    }

    /// The timeout sweep at `now`: supervises every instance that the
    /// store holds at the start, in their order, each as `supervise`
    /// does, and returns what each supervision answered. Instances that
    /// the sweep itself creates as retries are pending and are left for
    /// the next sweep.
    pub fn sweep(&mut self, now: Timestamp) -> (answers: Vec<(Option<ExecutionError>, Settlement)>)
        requires
            old(self).store.wf(),
        ensures
            final(self).store.wf(),
            final(self).backoff == old(self).backoff,
            final(self).store@.tasks == old(self).store@.tasks,
            answers@.len() == old(self).store@.instances.len(),
            exists|views: Seq<StoreModel>, lefts: Seq<nat>|
                {
                    &&& views.len() == answers@.len() + 1
                    &&& lefts.len() == answers@.len() + 1
                    &&& views[0] == old(self).store@
                    &&& lefts[0] == old(self).store.ids_left()
                    &&& views[answers@.len() as int] == final(self).store@
                    &&& lefts[answers@.len() as int] == final(self).store.ids_left()
                    &&& forall|k: int|
                        0 <= k < answers@.len() ==> supervised(
                            #[trigger] views[k],
                            lefts[k],
                            views[k + 1],
                            lefts[k + 1],
                            k,
                            old(self).backoff,
                            now,
                            answers@[k],
                        )
                },
    {
        let n = self.store.instances().len();
        let mut answers: Vec<(Option<ExecutionError>, Settlement)> = Vec::new();
        let ghost mut views: Seq<StoreModel> = seq![self.store@];
        let ghost mut lefts: Seq<nat> = seq![self.store.ids_left()];
        let mut i: usize = 0;
        while i < n
            invariant
                i <= n,
                n == old(self).store@.instances.len(),
                self.store.wf(),
                self.backoff == old(self).backoff,
                self.store@.tasks == old(self).store@.tasks,
                self.store@.instances.len() >= n,
                answers@.len() == i,
                views.len() == i + 1,
                lefts.len() == i + 1,
                views[0] == old(self).store@,
                lefts[0] == old(self).store.ids_left(),
                views[i as int] == self.store@,
                lefts[i as int] == self.store.ids_left(),
                forall|k: int|
                    0 <= k < i ==> supervised(
                        #[trigger] views[k],
                        lefts[k],
                        views[k + 1],
                        lefts[k + 1],
                        k,
                        old(self).backoff,
                        now,
                        answers@[k],
                    ),
            decreases n - i,
        {
            let ghost before = self.store@;
            match self.store.instances()[i].id {
                Some(id) => {
                    proof {
                        lemma_index_kept(before.instances, before.instances, id, i as int);
                    }
                    let answer = self.supervise(id, now);
                    answers.push(answer);
                },
                None => {
                    assert(false);
                },
            }
            proof {
                views = views.push(self.store@);
                lefts = lefts.push(self.store.ids_left());
            }
            i += 1;
        }
        answers
    }

    /// An executor claims an instance; see `DataStore::claim`.
    pub fn claim(&mut self, instance_id: ObjectId, executor_id: String, now: Timestamp) -> (won:
        bool)
        requires
            old(self).store.wf(),
        ensures
            final(self).store.wf(),
            final(self).backoff == old(self).backoff,
            final(self).store.ids_left() == old(self).store.ids_left(),
            won == (has_instance(old(self).store@.instances, instance_id) && old(
                self,
            ).store@.instances[instance_index(old(self).store@.instances, instance_id)].status
                == TaskStatus::Pending),
            !won ==> final(self).store@ == old(self).store@,
            won ==> final(self).store@ == with_instance(
                old(self).store@,
                instance_index(old(self).store@.instances, instance_id),
                old(self).store@.instances[instance_index(
                    old(self).store@.instances,
                    instance_id,
                )].claimed(executor_id, now),
            ),
    {
        self.store.claim(instance_id, executor_id, now)
    }

    /// Settles an instance that has ended: writes its log entry, unless
    /// it has one, and, if it failed with retries left, creates the
    /// pending instance that retries it. The ended instance itself stays
    /// as it is. Settling again writes and creates nothing more than is
    /// still owed, so that a settlement that was cut short can be
    /// repeated. For an instance that is unknown or has not ended nothing
    /// happens.
    pub fn settle(&mut self, instance_id: ObjectId, now: Timestamp) -> (out: Settlement)
        requires
            old(self).store.wf(),
        ensures
            final(self).store.wf(),
            final(self).backoff == old(self).backoff,
            has_instance(old(self).store@.instances, instance_id) && old(
                self,
            ).store@.instances[instance_index(
                old(self).store@.instances,
                instance_id,
            )].status.terminal() ==> {
                let k = instance_index(old(self).store@.instances, instance_id);
                &&& settlement_owed(
                    old(self).store@,
                    old(self).store.ids_left(),
                    k,
                    old(self).backoff,
                    now,
                    out,
                )
                &&& final(self).store@ == after_settlement(
                    old(self).store@,
                    k,
                    old(self).backoff,
                    now,
                    out,
                )
                &&& final(self).store.ids_left() == old(self).store.ids_left() - ids_used(
                    old(self).store@,
                    k,
                    out,
                )
            },
            !(has_instance(old(self).store@.instances, instance_id) && old(
                self,
            ).store@.instances[instance_index(
                old(self).store@.instances,
                instance_id,
            )].status.terminal()) ==> out == (Settlement { log_id: None, retry_id: None })
                && final(self).store@ == old(self).store@ && final(self).store.ids_left() == old(
                self,
            ).store.ids_left(),
    {
        let ended = match self.store.get_task_instance(instance_id) {
            Some(inst) => inst.status.is_terminal(),
            None => false,
        };
        if !ended {
            return Settlement { log_id: None, retry_id: None };
        }
        let ghost k = instance_index(self.store@.instances, instance_id);
        let log_id = match self.store.record(instance_id, TriggeredBy::Scheduler) {
            Ok(id) => Some(id),
            Err(_) => None,
        };
        let next = match self.store.get_task_instance(instance_id) {
            Some(inst) => match self.store.get_task(inst.task_id) {
                Some(task) => inst.retry_successor(task, &self.backoff, now),
                None => None,
            },
            None => None,
        };
        let retry_id = match next {
            Some(n) => match self.store.create_task_instance(
                n.task_id,
                n.scheduled_time,
                n.retry_count,
                now,
            ) {
                Ok(id) => Some(id),
                Err(_) => None,
            },
            None => None,
        };
        Settlement { log_id, retry_id }
    }

    /// An executor reports how a run ended. A report that applies (see
    /// `DataStore::report`) ends the instance, which is then settled: the
    /// log entry is written and, after a failure with retries left, the
    /// retry is created. A report that does not apply, one for an instance
    /// that has ended already in particular, is discarded and changes
    /// nothing.
    pub fn report(
        &mut self,
        instance_id: ObjectId,
        status: TaskStatus,
        result: ExecutionResult,
        now: Timestamp,
    ) -> (r: (bool, Settlement))
        requires
            old(self).store.wf(),
        ensures
            final(self).store.wf(),
            final(self).backoff == old(self).backoff,
            r.0 == (has_instance(old(self).store@.instances, instance_id) && old(
                self,
            ).store@.instances[instance_index(
                old(self).store@.instances,
                instance_id,
            )].accepts_report(status)),
            !r.0 ==> final(self).store@ == old(self).store@ && r.1 == (Settlement {
                log_id: None,
                retry_id: None,
            }) && final(self).store.ids_left() == old(self).store.ids_left(),
            r.0 ==> {
                let k = instance_index(old(self).store@.instances, instance_id);
                let ended = with_instance(
                    old(self).store@,
                    k,
                    old(self).store@.instances[k].reported(status, result, now),
                );
                &&& settlement_owed(
                    ended,
                    old(self).store.ids_left(),
                    k,
                    old(self).backoff,
                    now,
                    r.1,
                )
                &&& final(self).store@ == after_settlement(ended, k, old(self).backoff, now, r.1)
                &&& final(self).store.ids_left() == old(self).store.ids_left() - ids_used(
                    ended,
                    k,
                    r.1,
                )
            },
    {
        let applied = self.store.report(instance_id, status, result, now);
        if !applied {
            return (false, Settlement { log_id: None, retry_id: None });
        }
        proof {
            lemma_index_kept(
                old(self).store@.instances,
                self.store@.instances,
                instance_id,
                instance_index(old(self).store@.instances, instance_id),
            );
        }
        let out = self.settle(instance_id, now);
        (true, out)
    }

    /// Cancels an instance on request. A pending or running instance
    /// becomes cancelled and is settled, which writes its log entry; a
    /// cancelled instance is never retried. An instance that has ended
    /// stays as it is.
    pub fn cancel(&mut self, instance_id: ObjectId, now: Timestamp) -> (r: (bool, Settlement))
        requires
            old(self).store.wf(),
        ensures
            final(self).store.wf(),
            final(self).backoff == old(self).backoff,
            r.0 == (has_instance(old(self).store@.instances, instance_id) && !old(
                self,
            ).store@.instances[instance_index(
                old(self).store@.instances,
                instance_id,
            )].status.terminal()),
            !r.0 ==> final(self).store@ == old(self).store@ && r.1 == (Settlement {
                log_id: None,
                retry_id: None,
            }) && final(self).store.ids_left() == old(self).store.ids_left(),
            r.0 ==> {
                let k = instance_index(old(self).store@.instances, instance_id);
                let ended = with_instance(
                    old(self).store@,
                    k,
                    old(self).store@.instances[k].cancelled(now),
                );
                &&& r.1.retry_id is None
                &&& settlement_owed(
                    ended,
                    old(self).store.ids_left(),
                    k,
                    old(self).backoff,
                    now,
                    r.1,
                )
                &&& final(self).store@ == after_settlement(ended, k, old(self).backoff, now, r.1)
                &&& final(self).store.ids_left() == old(self).store.ids_left() - ids_used(
                    ended,
                    k,
                    r.1,
                )
            },
    {
        let applied = self.store.cancel(instance_id, now);
        if !applied {
            return (false, Settlement { log_id: None, retry_id: None });
        }
        proof {
            lemma_index_kept(
                old(self).store@.instances,
                self.store@.instances,
                instance_id,
                instance_index(old(self).store@.instances, instance_id),
            );
        }
        let out = self.settle(instance_id, now);
        (true, out)
    }

    /// Timeout supervision of one instance at `now`. An instance that is
    /// running and has run for longer than its task allows is failed
    /// without any word from its executor, with an error text and no
    /// output, and settled like any failure: logged, and retried if
    /// retries are left. The timeout is signalled. Any other instance
    /// stays as it is.
    pub fn supervise(&mut self, instance_id: ObjectId, now: Timestamp) -> (r: (
        Option<ExecutionError>,
        Settlement,
    ))
        requires
            old(self).store.wf(),
        ensures
            final(self).store.wf(),
            final(self).backoff == old(self).backoff,
            has_instance(old(self).store@.instances, instance_id) ==> supervised(
                old(self).store@,
                old(self).store.ids_left(),
                final(self).store@,
                final(self).store.ids_left(),
                instance_index(old(self).store@.instances, instance_id),
                old(self).backoff,
                now,
                r,
            ),
            !has_instance(old(self).store@.instances, instance_id) ==> r == (
                None::<ExecutionError>,
                Settlement { log_id: None, retry_id: None },
            ) && final(self).store@ == old(self).store@ && final(self).store.ids_left() == old(
                self,
            ).store.ids_left(),
    {
        let signal = self.store.expire(instance_id, now);
        if signal.is_none() {
            return (None, Settlement { log_id: None, retry_id: None });
        }
        proof {
            lemma_index_kept(
                old(self).store@.instances,
                self.store@.instances,
                instance_id,
                instance_index(old(self).store@.instances, instance_id),
            );
        }
        let out = self.settle(instance_id, now);
        (signal, out)
    }
}

/// What the first `n` materialized ticks brought about does not depend on
/// those that follow.
proof fn lemma_grown_prefix(
    instances: Seq<TaskInstance>,
    a: Seq<Materialized>,
    b: Seq<Materialized>,
    now: Timestamp,
    n: int,
)
    requires
        0 <= n <= a.len() <= b.len(),
        forall|i: int| 0 <= i < a.len() ==> a[i] == b[i],
    ensures
        grown(instances, a, now, n) == grown(instances, b, now, n),
        created(a, n) == created(b, n),
    decreases n,
{
    if n > 0 {
        lemma_grown_prefix(instances, a, b, now, n - 1);
    }
}

/// An instance that was replaced in place, id kept, is found where it
/// was.
proof fn lemma_index_kept(
    before: Seq<TaskInstance>,
    after: Seq<TaskInstance>,
    id: ObjectId,
    k: int,
)
    requires
        0 <= k < before.len(),
        before[k].id == Some(id),
        after.len() == before.len(),
        after[k].id == Some(id),
        forall|i: int, j: int|
            0 <= i < after.len() && 0 <= j < after.len() && i != j ==> (#[trigger] after[i]).id != (
            #[trigger] after[j]).id,
    ensures
        has_instance(after, id),
        instance_index(after, id) == k,
{
    let c = instance_index(after, id);
    if c != k {
        assert(after[c].id != after[k].id);
    }
}

} // verus!
