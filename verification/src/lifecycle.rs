//! The life cycle of one scheduled instance: Pending, then Running, then
//! one of Success, Failed and Cancelled. Each transition applies only from
//! the states it is defined on and otherwise leaves the instance as it is,
//! so that whichever of two racing transitions lands first stands.

use crate::types::{ExecutionResult, ObjectId, Task, TaskInstance, TaskStatus, Timestamp};
use vstd::prelude::*;
use vstd::string::StringExecFns;

verus! {

/// Why the engine itself ended an execution.
#[derive(Clone, Copy, Debug, PartialEq, Eq, Structural)]
pub enum ExecutionError {
    /// The instance ran for longer than its task allows.
    Timeout,
}

/// How long after a failure the retry is scheduled.
#[derive(Clone, Copy, Debug, PartialEq, Eq, Structural)]
pub enum BackoffPolicy {
    /// At once.
    Immediate,
    /// The same number of milliseconds after every failure.
    Fixed(i64),
    /// The given number of milliseconds after the first failure, twice as
    /// many after the second, and so on.
    Linear(i64),
}

/// The instant nearest to `t` that a timestamp can hold.
pub open spec fn clamp_timestamp(t: int) -> Timestamp {
    if t > i64::MAX {
        i64::MAX
    } else if t < i64::MIN {
        i64::MIN
    } else {
        t as i64
    }
}

impl BackoffPolicy {
    /// Milliseconds to wait before the retry of an instance that failed
    /// with the given retry count. A negative setting counts as zero.
    pub open spec fn delay(self, retry_count: int) -> int {
        match self {
            BackoffPolicy::Immediate => 0,
            BackoffPolicy::Fixed(d) => if d > 0 {
                d as int
            } else {
                0
            },
            BackoffPolicy::Linear(step) => if step > 0 && retry_count >= 0 {
                step * (retry_count + 1)
            } else {
                0
            },
        }
    }

    /// The instant for which the retry is scheduled: `now` plus the delay,
    /// or the last instant a timestamp can hold if that is earlier.
    pub fn retry_time(&self, retry_count: i32, now: Timestamp) -> (t: Timestamp)
        ensures
            t == clamp_timestamp(now + self.delay(retry_count as int)),
    {
        let delay: i128 = match self {
            BackoffPolicy::Immediate => 0,
            BackoffPolicy::Fixed(d) => if *d > 0 {
                *d as i128
            } else {
                0
            },
            BackoffPolicy::Linear(step) => if *step > 0 && retry_count >= 0 {
                let s: i128 = *step as i128;
                let n: i128 = retry_count as i128 + 1;
                assert(0 <= s * n <= 0x7fff_ffff_ffff_ffff * 0x8000_0000) by (nonlinear_arith)
                    requires
                        0 <= s <= 0x7fff_ffff_ffff_ffff,
                        0 <= n <= 0x8000_0000,
                ;
                s * n
            } else {
                0
            },
        };
        let at: i128 = now as i128 + delay;
        if at > i64::MAX as i128 {
            i64::MAX
        } else {
            at as i64
        }
    }
}

/// The error text of an instance that the engine failed for running too
/// long.
pub open spec fn timeout_text() -> Seq<char> {
    "execution timed out"@
}

impl TaskInstance {
    /// A fresh instance waiting to be claimed.
    pub open spec fn pending(
        task_id: ObjectId,
        scheduled_time: Timestamp,
        retry_count: i32,
        now: Timestamp,
    ) -> TaskInstance {
        TaskInstance {
            id: None,
            task_id,
            scheduled_time,
            status: TaskStatus::Pending,
            executor_id: None,
            start_time: None,
            end_time: None,
            retry_count,
            result: None,
            created_at: now,
        }
    }

    /// A fresh instance of the task for the given tick, waiting to be
    /// claimed.
    pub fn new_pending(
        task_id: ObjectId,
        scheduled_time: Timestamp,
        retry_count: i32,
        now: Timestamp,
    ) -> (inst: TaskInstance)
        ensures
            inst == TaskInstance::pending(task_id, scheduled_time, retry_count, now),
    {
        TaskInstance {
            id: None,
            task_id,
            scheduled_time,
            status: TaskStatus::Pending,
            executor_id: None,
            start_time: None,
            end_time: None,
            retry_count,
            result: None,
            created_at: now,
        }
    }

    /// The instance once `executor` has claimed it at `now`.
    pub open spec fn claimed(self, executor: String, now: Timestamp) -> TaskInstance {
        TaskInstance {
            status: TaskStatus::Running,
            executor_id: Some(executor),
            start_time: Some(now),
            ..self
        }
    }

    /// An executor claims the instance. Only a pending instance can be
    /// claimed: the claim then sets the executor and the start time along
    /// with the state. Any other instance is left as it is.
    pub fn claim(&mut self, executor_id: String, now: Timestamp) -> (won: bool)
        ensures
            won == (old(self).status == TaskStatus::Pending),
            won ==> *final(self) == old(self).claimed(executor_id, now),
            !won ==> *final(self) == *old(self),
    {
        if self.status == TaskStatus::Pending {
            self.status = TaskStatus::Running;
            self.executor_id = Some(executor_id);
            self.start_time = Some(now);
            true
        } else {
            false
        }
    }

    /// A report of `status` applies: the instance is running, and the
    /// report says that it succeeded or failed.
    pub open spec fn accepts_report(self, status: TaskStatus) -> bool {
        self.status == TaskStatus::Running && (status == TaskStatus::Success || status
            == TaskStatus::Failed)
    }

    /// The instance once it has ended at `now` with the given state and
    /// result.
    pub open spec fn reported(
        self,
        status: TaskStatus,
        result: ExecutionResult,
        now: Timestamp,
    ) -> TaskInstance {
        TaskInstance { status, result: Some(result), end_time: Some(now), ..self }
    }

    /// The executor reports how the run ended. The report applies to a
    /// running instance and must say Success or Failed; it then sets the
    /// state, the result and the end time. A report for an instance in any
    /// other state, one that has ended in particular, is discarded.
    pub fn report(&mut self, status: TaskStatus, result: ExecutionResult, now: Timestamp) -> (applied:
        bool)
        ensures
            applied == old(self).accepts_report(status),
            applied ==> *final(self) == old(self).reported(status, result, now),
            !applied ==> *final(self) == *old(self),
    {
        if self.status == TaskStatus::Running && (status == TaskStatus::Success || status
            == TaskStatus::Failed) {
            self.status = status;
            self.result = Some(result);
            self.end_time = Some(now);
            true
        } else {
            false
        }
    }

    /// The instance once it has been cancelled at `now`.
    pub open spec fn cancelled(self, now: Timestamp) -> TaskInstance {
        TaskInstance { status: TaskStatus::Cancelled, end_time: Some(now), ..self }
    }

    /// Cancels the instance on request. A pending or running instance
    /// becomes cancelled; one that has ended is left as it is.
    pub fn cancel(&mut self, now: Timestamp) -> (applied: bool)
        ensures
            applied == !old(self).status.terminal(),
            applied ==> *final(self) == old(self).cancelled(now),
            !applied ==> *final(self) == *old(self),
    {
        if self.status == TaskStatus::Pending || self.status == TaskStatus::Running {
            self.status = TaskStatus::Cancelled;
            self.end_time = Some(now);
            true
        } else {
            false
        }
    }

    /// The instance is running and has, at `now`, run for longer than the
    /// timeout allows. Without a timeout, or without a start time, no
    /// instance is overdue.
    pub open spec fn overdue(self, timeout_seconds: Option<i32>, now: Timestamp) -> bool {
        &&& self.status == TaskStatus::Running
        &&& self.start_time matches Some(start)
        &&& timeout_seconds matches Some(limit)
        &&& now - start > limit * 1000
    }

    /// Whether the instance is overdue at `now`.
    pub fn is_overdue(&self, timeout_seconds: Option<i32>, now: Timestamp) -> (r: bool)
        ensures
            r == self.overdue(timeout_seconds, now),
    {
        if self.status != TaskStatus::Running {
            return false;
        }
        match (self.start_time, timeout_seconds) {
            (Some(start), Some(limit)) => {
                let elapsed: i128 = now as i128 - start as i128;
                let allowed: i128 = limit as i128 * 1000;
                elapsed > allowed
            },
            _ => false,
        }
    }

    /// Timeout supervision: fails an overdue instance without waiting for
    /// its executor, and says so. The instance then ends at `now` with an
    /// error text and no output. An instance that is not overdue is left
    /// as it is.
    pub fn supervise(&mut self, timeout_seconds: Option<i32>, now: Timestamp) -> (signal: Option<
        ExecutionError,
    >)
        ensures
            signal == if old(self).overdue(timeout_seconds, now) {
                Some(ExecutionError::Timeout)
            } else {
                None
            },
            signal is None ==> *final(self) == *old(self),
            signal is Some ==> {
                &&& final(self).result matches Some(r)
                &&& r.output is None
                &&& r.exit_code is None
                &&& (r.error matches Some(m) && m@ == timeout_text())
                &&& *final(self) == old(self).reported(TaskStatus::Failed, r, now)
            },
    {
        if self.is_overdue(timeout_seconds, now) {
            let result = ExecutionResult {
                output: None,
                error: Some(String::from_str("execution timed out")),
                exit_code: None,
            };
            self.status = TaskStatus::Failed;
            self.result = Some(result);
            self.end_time = Some(now);
            Some(ExecutionError::Timeout)
        } else {
            None
        }
    }

    /// The instance failed and its task grants it another attempt.
    pub open spec fn retryable(self, task: Task) -> bool {
        self.status == TaskStatus::Failed && self.retry_count < task.retry_limit()
    }

    /// The moment from which the retry's delay counts: the end of this
    /// instance, which for a failure that is reported or forced at `now`
    /// is `now`; for an instance that bears no end time, `now`.
    pub open spec fn retry_base(self, now: Timestamp) -> Timestamp {
        match self.end_time {
            Some(end) => end,
            None => now,
        }
    }

    /// The instance that retries this one: pending, for the same task,
    /// with the retry count raised by one, created at `now` and scheduled
    /// after the delay that the policy gives, counted from the end of
    /// this instance. As the tick depends on nothing but this instance,
    /// the same retry is never enqueued twice.
    pub open spec fn successor(self, policy: BackoffPolicy, now: Timestamp) -> TaskInstance {
        TaskInstance::pending(
            self.task_id,
            clamp_timestamp(self.retry_base(now) + policy.delay(self.retry_count as int)),
            (self.retry_count + 1) as i32,
            now,
        )
    }

    /// The retry that follows this instance, if one is due: a failed
    /// instance whose retry count is below the task's limit has exactly
    /// one successor; every other instance has none. The instance itself
    /// is not touched.
    pub fn retry_successor(&self, task: &Task, policy: &BackoffPolicy, now: Timestamp) -> (next:
        Option<TaskInstance>)
        ensures
            next == if self.retryable(*task) {
                Some(self.successor(*policy, now))
            } else {
                None
            },
    {
        if self.status != TaskStatus::Failed {
            return None;
        }
        let limit: i32 = match task.max_retries {
            Some(m) => if m > 0 {
                m
            } else {
                0
            },
            None => 0,
        };
        if self.retry_count < limit {
            let base = match self.end_time {
                Some(end) => end,
                None => now,
            };
            let at = policy.retry_time(self.retry_count, base);
            Some(TaskInstance::new_pending(self.task_id, at, self.retry_count + 1, now))
        } else {
            None
        }
    }
}

} // verus!
