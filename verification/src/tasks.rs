//! Task types exchanged between the scheduler, the coordinator and the
//! renderer.
use vstd::prelude::*;
use crate::clock::unix_timestamp_ms;

verus! {

/// Unique identifier for a task.
pub type TaskId = u64;

/// Priority level for tasks (higher = more urgent).
#[derive(Debug, Clone, Copy, PartialEq, Eq, PartialOrd, Ord, Hash, Structural)]
pub enum Priority {
    Low,
    Normal,
    High,
    Critical,
}

/// The order of priorities: `Low < Normal < High < Critical`.
pub open spec fn rank(p: Priority) -> int {
    match p {
        Priority::Low => 0,
        Priority::Normal => 1,
        Priority::High => 2,
        Priority::Critical => 3,
    }
}

impl Priority {
    /// Numeric level of the priority: 0 for `Low` up to 3 for `Critical`.
    pub fn level(self) -> (l: u8)
        ensures
            l == rank(self),
    {
        match self {
            Priority::Low => 0,
            Priority::Normal => 1,
            Priority::High => 2,
            Priority::Critical => 3,
        }
    }
}

impl Default for Priority {
    fn default() -> (p: Priority)
        ensures
            p == Priority::Normal,
    {
        Priority::Normal
    }
}

/// Task status lifecycle.
#[derive(Debug, PartialEq, Eq)]
pub enum TaskStatus {
    /// Task is queued, waiting for assignment
    Pending,
    /// Task is assigned to a robot, waiting for execution
    Assigned { robot_id: u32 },
    /// Robot is executing the task
    InProgress { robot_id: u32 },
    /// Task completed successfully
    Completed,
    /// Task failed (robot error, obstacle, etc.)
    Failed { reason: String },
    /// Task was cancelled
    Cancelled,
}

impl Clone for TaskStatus {
    fn clone(&self) -> (r: TaskStatus)
        ensures
            r == *self,
    {
        match self {
            TaskStatus::Pending => TaskStatus::Pending,
            TaskStatus::Assigned { robot_id } => TaskStatus::Assigned { robot_id: *robot_id },
            TaskStatus::InProgress { robot_id } => TaskStatus::InProgress { robot_id: *robot_id },
            TaskStatus::Completed => TaskStatus::Completed,
            TaskStatus::Failed { reason } => TaskStatus::Failed { reason: reason.clone() },
            TaskStatus::Cancelled => TaskStatus::Cancelled,
        }
    }
}

/// The type of work to perform.
#[derive(Debug, Clone, Copy, PartialEq, Eq)]
pub enum TaskType {
    /// Pick up cargo from a shelf and deliver to dropoff
    PickAndDeliver { pickup: (usize, usize), dropoff: (usize, usize), cargo_id: Option<u32> },
    /// Move cargo from one shelf to another (inventory reorg)
    Relocate { from: (usize, usize), to: (usize, usize) },
    /// Return robot to charging station
    ReturnToStation { robot_id: u32 },
}

/// A task represents a unit of work to be executed by a robot.
#[derive(Debug)]
pub struct Task {
    /// Unique task identifier
    pub id: TaskId,
    /// What type of work the task represents
    pub task_type: TaskType,
    /// Priority level
    pub priority: Priority,
    /// Current status
    pub status: TaskStatus,
    /// Timestamp when task was created (Unix millis)
    pub created_at: u64,
    /// Timestamp when task was completed/failed/cancelled (Unix millis)
    pub completed_at: Option<u64>,
}

impl Clone for Task {
    fn clone(&self) -> (r: Task)
        ensures
            r == *self,
    {
        Task {
            id: self.id,
            task_type: self.task_type,
            priority: self.priority,
            status: self.status.clone(),
            created_at: self.created_at,
            completed_at: self.completed_at,
        }
    }
}

/// Where a task of the given type picks up, if anywhere.
pub open spec fn pickup_of(t: TaskType) -> Option<(usize, usize)> {
    match t {
        TaskType::PickAndDeliver { pickup, .. } => Some(pickup),
        TaskType::Relocate { from, .. } => Some(from),
        TaskType::ReturnToStation { .. } => None,
    }
}

/// Where a task of the given type delivers, if anywhere.
pub open spec fn target_of(t: TaskType) -> Option<(usize, usize)> {
    match t {
        TaskType::PickAndDeliver { dropoff, .. } => Some(dropoff),
        TaskType::Relocate { to, .. } => Some(to),
        TaskType::ReturnToStation { .. } => None,
    }
}

impl Task {
    /// Create a new pending task stamped with the current Unix time.
    pub fn new(id: TaskId, task_type: TaskType, priority: Priority) -> (t: Task)
        ensures
            t.id == id,
            t.task_type == task_type,
            t.priority == priority,
            t.status == TaskStatus::Pending,
            t.completed_at is None,
    {
        Task::new_at(id, task_type, priority, unix_timestamp_ms())
    }

    /// Create a new pending task with the given creation time.
    pub fn new_at(id: TaskId, task_type: TaskType, priority: Priority, created_at: u64) -> (t: Task)
        ensures
            t == (Task {
                id,
                task_type,
                priority,
                status: TaskStatus::Pending,
                created_at,
                completed_at: None,
            }),
    {
        Task { id, task_type, priority, status: TaskStatus::Pending, created_at, completed_at: None }
    }

    /// Get the pickup location for the task (if applicable).
    pub fn pickup_location(&self) -> (r: Option<(usize, usize)>)
        ensures
            r == pickup_of(self.task_type),
    {
        match self.task_type {
            TaskType::PickAndDeliver { pickup, .. } => Some(pickup),
            TaskType::Relocate { from, .. } => Some(from),
            TaskType::ReturnToStation { .. } => None,
        }
    }

    /// Get the delivery/target location for the task.
    pub fn target_location(&self) -> (r: Option<(usize, usize)>)
        ensures
            r == target_of(self.task_type),
    {
        match self.task_type {
            TaskType::PickAndDeliver { dropoff, .. } => Some(dropoff),
            TaskType::Relocate { to, .. } => Some(to),
            TaskType::ReturnToStation { .. } => None,
        }
    }
}

/// Assignment message: scheduler to coordinator.
#[derive(Debug, Clone)]
pub struct TaskAssignment {
    /// The task being assigned
    pub task: Task,
    /// Robot assigned to execute the task
    pub robot_id: u32,
}

/// Status update: coordinator to scheduler.
#[derive(Debug, Clone)]
pub struct TaskStatusUpdate {
    /// Task ID being updated
    pub task_id: TaskId,
    /// New status
    pub status: TaskStatus,
    /// Robot that reported this update (if any)
    pub robot_id: Option<u32>,
}

/// New task request: external system to scheduler.
#[derive(Debug, Clone, Copy)]
pub struct TaskRequest {
    /// What type of work
    pub task_type: TaskType,
    /// Priority level
    pub priority: Priority,
}

/// Command sent to the scheduler on the task request topic.
#[derive(Debug, Clone, Copy)]
pub enum TaskCommand {
    /// Create a new task
    New { task_type: TaskType, priority: Priority },
    /// Cancel an existing pending task
    Cancel(TaskId),
    /// Change the priority of an existing pending task
    SetPriority(TaskId, Priority),
    /// Add `count` random tasks; a dropoff is their destination with the
    /// given chance in parts per million (the default when absent).
    MassAdd { count: u32, dropoff_ppm: Option<u64> },
}

/// Task list snapshot: scheduler to renderer, broadcast periodically.
#[derive(Debug, Clone)]
pub struct TaskListSnapshot {
    /// Active (pending, assigned, in progress) tasks, in queue order, up to
    /// the active window size
    pub active_tasks: Vec<Task>,
    /// Most recently finished tasks, most recent first, up to the recent
    /// window size
    pub recent_terminal_tasks: Vec<Task>,
    /// Number of active tasks in the queue
    pub active_total: usize,
    /// Number of completed tasks in the queue
    pub completed_total: usize,
    /// Number of failed tasks in the queue
    pub failed_total: usize,
    /// Number of cancelled tasks in the queue
    pub cancelled_total: usize,
    /// Unix milliseconds when this snapshot was taken
    pub timestamp_ms: u64,
}

/// Queue status snapshot: scheduler broadcasts this periodically.
#[derive(Debug, Clone, Copy)]
pub struct QueueState {
    /// Number of pending (unassigned) tasks
    pub pending: usize,
    /// Total tasks in queue
    pub total: usize,
    /// Number of online robots
    pub robots_online: usize,
}

} // verus!
