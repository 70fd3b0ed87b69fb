//! Messages exchanged between nodes for task operations, and the paths of
//! the task endpoints.

use vstd::prelude::*;

use crate::executor::types::{Task, TaskEntry, TaskId, TaskStatus};
use crate::membership::types::NodeId;

verus! {

/// Public endpoint for submitting tasks.
pub const ENDPOINT_SUBMIT_TASK: &'static str = "/task/submit";

/// Internal endpoint for forwarding a task to the primary of its partition.
pub const ENDPOINT_INTERNAL_SUBMIT: &'static str = "/internal/submit_task";

/// Internal endpoint for reading one task entry.
pub const ENDPOINT_TASK_INTERNAL_GET: &'static str = "/internal/get_task";

/// Public endpoint for the status of a task.
pub const ENDPOINT_TASK_STATUS: &'static str = "/task/status";

/// Internal endpoint for copying a task from a primary to a backup.
pub const ENDPOINT_TASK_REPLICATE: &'static str = "/internal/replicate_task";

/// Internal endpoint for transferring all tasks of a partition.
pub const ENDPOINT_TASK_PARTITION_DUMP: &'static str = "/internal/task_partition";

/// A task submission.
#[derive(Debug)]
pub struct SubmitTaskRequest {
    pub task: Task,
}

/// The id given to a submitted task.
#[derive(Debug)]
pub struct SubmitTaskResponse {
    pub task_id: TaskId,
}

/// The answer to an internal read of a task.
#[derive(Debug)]
pub struct GetTaskResponse {
    pub task: Option<TaskEntry>,
}

/// A task forwarded to the primary of its partition.
#[derive(Debug)]
pub struct ForwardTaskRequest {
    /// The partition, as the sender computed it.
    pub partition: u32,
    pub task_id: TaskId,
    pub task: Task,
}

/// The public status of a task.
#[derive(Debug)]
pub struct TaskStatusResponse {
    pub task_id: TaskId,
    pub status: TaskStatus,
    pub assigned_to: Option<NodeId>,
    pub created_at: u64,
}

/// A task copied from a primary to a backup.
#[derive(Debug)]
pub struct ReplicateTaskRequest {
    pub partition: u32,
    pub task_id: TaskId,
    pub entry: TaskEntry,
}

/// One task of a partition transfer.
#[derive(Debug)]
pub struct TaskPartitionEntry {
    pub task_id: TaskId,
    pub entry: TaskEntry,
}

/// All tasks of a partition.
#[derive(Debug)]
pub struct TaskPartitionDumpResponse {
    pub partition: u32,
    pub entries: Vec<TaskPartitionEntry>,
}

} // verus!
