//! The entities of the scheduler: task definitions, their scheduled
//! instances, the execution log, and the requests and filters that act on
//! them.

use vstd::prelude::*;

verus! {

/// Milliseconds since the Unix epoch.
pub type Timestamp = i64;

/// A twelve-byte identifier that the store hands out: the leading four
/// bytes and the trailing eight, each read as a big-endian number.
#[derive(Clone, Copy, Debug, PartialEq, Eq, Hash, Structural)]
pub struct ObjectId {
    pub head: u32,
    pub tail: u64,
}

/// Kind of work a task carries; the tag of its payload.
#[derive(Clone, Copy, Debug, PartialEq, Eq, Structural)]
pub enum TaskType {
    Command,
    Http,
}

/// Life-cycle state of a scheduled instance.
#[derive(Clone, Copy, Debug, PartialEq, Eq, Structural)]
pub enum TaskStatus {
    Pending,
    Running,
    Success,
    Failed,
    Cancelled,
}

impl TaskStatus {
    /// Success, Failed and Cancelled admit no further transition.
    pub open spec fn terminal(self) -> bool {
        self == TaskStatus::Success || self == TaskStatus::Failed || self == TaskStatus::Cancelled
    }

    /// Whether no further transition is permitted from this state.
    pub fn is_terminal(&self) -> (r: bool)
        ensures
            r == self.terminal(),
    {
        match self {
            TaskStatus::Success | TaskStatus::Failed | TaskStatus::Cancelled => true,
            TaskStatus::Pending | TaskStatus::Running => false,
        }
    }
}

/// Who asked for an execution.
#[derive(Clone, Copy, Debug, PartialEq, Eq, Structural)]
pub enum TriggeredBy {
    Scheduler,
    Manual,
}

/// When a task fires.
#[derive(Clone, Debug)]
pub enum Schedule {
    /// Once, at the given instant.
    Once(Timestamp),
    /// Repeatedly, the given number of milliseconds apart.
    Interval(i64),
    /// In every second that the cron expression admits. An expression
    /// that is not well formed never fires.
    Cron(String),
}

/// What a task runs. The engine carries it and never looks inside.
#[derive(Clone, Debug)]
pub enum TaskPayload {
    Command { command: String, timeout_seconds: Option<i32> },
    Http {
        url: String,
        method: Option<String>,
        /// The headers as JSON text.
        headers: Option<String>,
        body: Option<String>,
        timeout_seconds: Option<i32>,
    },
}

impl TaskPayload {
    /// The tag that belongs to this payload.
    pub open spec fn kind(self) -> TaskType {
        match self {
            TaskPayload::Command { .. } => TaskType::Command,
            TaskPayload::Http { .. } => TaskType::Http,
        }
    }

    /// The tag that belongs to this payload.
    pub fn task_type(&self) -> (t: TaskType)
        ensures
            t == self.kind(),
    {
        match self {
            TaskPayload::Command { .. } => TaskType::Command,
            TaskPayload::Http { .. } => TaskType::Http,
        }
    }
}

/// A task definition.
#[derive(Clone, Debug)]
pub struct Task {
    pub id: Option<ObjectId>,
    pub name: String,
    pub description: Option<String>,
    pub dependency_ids: Vec<ObjectId>,
    pub task_type: TaskType,
    pub schedule: Schedule,
    pub enabled: bool,
    pub payload: TaskPayload,
    pub timeout_seconds: Option<i32>,
    pub max_retries: Option<i32>,
    pub created_at: Timestamp,
    pub updated_at: Timestamp,
    pub deleted_at: Option<Timestamp>,
}

impl Task {
    /// Enabled and not soft-deleted: the definitions that are planned and
    /// that take part in the dependency graph.
    pub open spec fn active(self) -> bool {
        self.enabled && self.deleted_at is None
    }

    /// Whether the definition is enabled and not soft-deleted.
    pub fn is_active(&self) -> (r: bool)
        ensures
            r == self.active(),
    {
        self.enabled && self.deleted_at.is_none()
    }

    /// Number of retries granted after a failure; none when unset or
    /// negative.
    pub open spec fn retry_limit(self) -> int {
        match self.max_retries {
            Some(m) if m > 0 => m as int,
            _ => 0,
        }
    }

    /// Whether `id` is among the dependencies.
    pub open spec fn depends_on_id(self, id: ObjectId) -> bool {
        self.dependency_ids@.contains(id)
    }

    /// Whether `id` is among the dependencies.
    pub fn has_dependency(&self, id: ObjectId) -> (r: bool)
        ensures
            r == self.depends_on_id(id),
    {
        let mut k: usize = 0;
        while k < self.dependency_ids.len()
            invariant
                k <= self.dependency_ids.len(),
                forall|j: int| 0 <= j < k ==> self.dependency_ids[j] != id,
            decreases self.dependency_ids.len() - k,
        {
            if self.dependency_ids[k] == id {
                return true;
            }
            k += 1;
        }
        false
    }
}

/// What an executor reports back.
#[derive(Clone, Debug)]
pub struct ExecutionResult {
    pub output: Option<String>,
    pub error: Option<String>,
    pub exit_code: Option<i32>,
}

/// One scheduled firing of a task.
#[derive(Clone, Debug)]
pub struct TaskInstance {
    pub id: Option<ObjectId>,
    pub task_id: ObjectId,
    pub scheduled_time: Timestamp,
    pub status: TaskStatus,
    pub executor_id: Option<String>,
    pub start_time: Option<Timestamp>,
    pub end_time: Option<Timestamp>,
    pub retry_count: i32,
    pub result: Option<ExecutionResult>,
    pub created_at: Timestamp,
}

/// The audit record of one finished instance.
#[derive(Clone, Debug)]
pub struct ExecutionLog {
    pub id: Option<ObjectId>,
    pub task_id: ObjectId,
    pub task_name: String,
    pub instance_id: ObjectId,
    pub scheduled_time: Timestamp,
    pub start_time: Option<Timestamp>,
    pub end_time: Timestamp,
    pub status: TaskStatus,
    pub duration_ms: i64,
    pub output_summary: Option<String>,
    pub error_message: Option<String>,
    pub triggered_by: TriggeredBy,
}

/// Request to register a task.
#[derive(Clone, Debug)]
pub struct CreateTaskRequest {
    pub name: String,
    pub description: Option<String>,
    pub dependency_ids: Vec<ObjectId>,
    pub task_type: TaskType,
    pub schedule: Schedule,
    pub enabled: bool,
    pub payload: TaskPayload,
    pub timeout_seconds: Option<i32>,
    pub max_retries: Option<i32>,
}

/// Request to change a task: each field that is set replaces the task's.
#[derive(Clone, Debug)]
pub struct UpdateTaskRequest {
    pub name: Option<String>,
    pub description: Option<String>,
    pub dependency_ids: Option<Vec<ObjectId>>,
    pub schedule: Option<Schedule>,
    pub enabled: Option<bool>,
    pub payload: Option<TaskPayload>,
    pub timeout_seconds: Option<i32>,
    pub max_retries: Option<i32>,
}

/// Selects tasks: each field that is set must agree.
#[derive(Clone, Debug)]
pub struct TaskFilter {
    pub name: Option<String>,
    pub enabled: Option<bool>,
    pub task_type: Option<TaskType>,
    /// `Some(false)`: only tasks that are not soft-deleted; `Some(true)`:
    /// only soft-deleted ones; `None`: both.
    pub deleted: Option<bool>,
}

/// Selects instances: each field that is set must agree.
#[derive(Clone, Debug)]
pub struct TaskInstanceFilter {
    pub task_id: Option<ObjectId>,
    pub status: Option<TaskStatus>,
    pub executor_id: Option<String>,
    /// Started at this instant or later.
    pub start_after: Option<Timestamp>,
    /// Started at this instant or earlier.
    pub start_before: Option<Timestamp>,
}

/// Selects log entries: each field that is set must agree.
#[derive(Clone, Debug)]
pub struct ExecutionLogFilter {
    pub task_id: Option<ObjectId>,
    pub status: Option<TaskStatus>,
    pub triggered_by: Option<TriggeredBy>,
    /// Ended at this instant or later.
    pub end_after: Option<Timestamp>,
    /// Ended at this instant or earlier.
    pub end_before: Option<Timestamp>,
}

impl Default for CreateTaskRequest {
    /// An empty, disabled command task whose schedule never fires.
    fn default() -> (r: Self)
        ensures
            r.name@.len() == 0,
            r.description is None,
            r.dependency_ids@.len() == 0,
            r.task_type == TaskType::Command,
            r.schedule matches Schedule::Cron(e) && e@.len() == 0,
            !r.enabled,
            r.payload matches TaskPayload::Command { command, timeout_seconds }
                && command@.len() == 0 && timeout_seconds is None,
            r.timeout_seconds is None,
            r.max_retries is None,
    {
        CreateTaskRequest {
            name: String::new(),
            description: None,
            dependency_ids: Vec::new(),
            task_type: TaskType::Command,
            schedule: Schedule::Cron(String::new()),
            enabled: false,
            payload: TaskPayload::Command { command: String::new(), timeout_seconds: None },
            timeout_seconds: None,
            max_retries: None,
        }
    }
}

impl Default for UpdateTaskRequest {
    /// The request that changes nothing.
    fn default() -> (r: Self)
        ensures
            r.name is None,
            r.description is None,
            r.dependency_ids is None,
            r.schedule is None,
            r.enabled is None,
            r.payload is None,
            r.timeout_seconds is None,
            r.max_retries is None,
    {
        UpdateTaskRequest {
            name: None,
            description: None,
            dependency_ids: None,
            schedule: None,
            enabled: None,
            payload: None,
            timeout_seconds: None,
            max_retries: None,
        }
    }
}

impl Default for TaskFilter {
    /// Every task that is not soft-deleted.
    fn default() -> (r: Self)
        ensures
            r.name is None,
            r.enabled is None,
            r.task_type is None,
            r.deleted == Some(false),
    {
        TaskFilter { name: None, enabled: None, task_type: None, deleted: Some(false) }
    }
}

impl Default for TaskInstanceFilter {
    /// Every instance.
    fn default() -> (r: Self)
        ensures
            r.task_id is None,
            r.status is None,
            r.executor_id is None,
            r.start_after is None,
            r.start_before is None,
    {
        TaskInstanceFilter {
            task_id: None,
            status: None,
            executor_id: None,
            start_after: None,
            start_before: None,
        }
    }
}

impl Default for ExecutionLogFilter {
    /// Every log entry.
    fn default() -> (r: Self)
        ensures
            r.task_id is None,
            r.status is None,
            r.triggered_by is None,
            r.end_after is None,
            r.end_before is None,
    {
        ExecutionLogFilter {
            task_id: None,
            status: None,
            triggered_by: None,
            end_after: None,
            end_before: None,
        }
    }
}

} // verus!
