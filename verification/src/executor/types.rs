//! Tasks, their identifiers and their states.

use vstd::prelude::*;

use crate::membership::types::NodeId;
use crate::sys::{system_millis, uuid_v4_string};

verus! {

#[verifier::external_type_specification]
#[verifier::external_body]
pub struct ExJsonValue(serde_json::Value);

/// A copy of a JSON value (`Clone for serde_json::Value`, which copies the
/// value structurally): the copy is the same value.
#[verifier::external_body]
pub(crate) fn clone_json(v: &serde_json::Value) -> (r: serde_json::Value)
    ensures
        r == *v,
{
    v.clone()
}

/// Identifier of a task: a UUID string. Its hash decides which partition,
/// and so which node, holds the task.
#[derive(Debug, PartialEq, Eq, Hash)]
pub struct TaskId(pub String);

impl View for TaskId {
    type V = Seq<char>;

    open spec fn view(&self) -> Seq<char> {
        self.0@
    }
}

impl Clone for TaskId {
    fn clone(&self) -> (r: Self)
        ensures
            r == *self,
    {
        TaskId(self.0.clone())
    }
}

impl TaskId {
    /// A fresh random identifier.
    pub fn new() -> (id: Self)
        ensures
            id@.len() == 36,
    {
        TaskId(uuid_v4_string())
    }
}

/// Where a task is in its life.
#[derive(Debug, PartialEq, Eq)]
pub enum TaskStatus {
    /// Submitted, not yet picked up.
    Pending,
    /// Being processed under a lease.
    Running,
    /// Finished successfully.
    Completed,
    /// The handler failed with this message.
    Failed { error: String },
}

impl Clone for TaskStatus {
    fn clone(&self) -> (r: Self)
        ensures
            r == *self,
    {
        match self {
            TaskStatus::Pending => TaskStatus::Pending,
            TaskStatus::Running => TaskStatus::Running,
            TaskStatus::Completed => TaskStatus::Completed,
            TaskStatus::Failed { error } => TaskStatus::Failed { error: error.clone() },
        }
    }
}

/// A unit of work: the name of a registered handler and its JSON payload.
#[derive(Debug)]
pub enum Task {
    Execute { handler: String, payload: serde_json::Value },
}

impl Clone for Task {
    fn clone(&self) -> (r: Self)
        ensures
            r == *self,
    {
        match self {
            Task::Execute { handler, payload } => Task::Execute {
                handler: handler.clone(),
                payload: clone_json(payload),
            },
        }
    }
}

/// A task as the queue stores it.
#[derive(Debug)]
pub struct TaskEntry {
    /// The work.
    pub task: Task,
    /// Where it is in its life.
    pub status: TaskStatus,
    /// The node processing it, once claimed.
    pub assigned_to: Option<NodeId>,
    /// Submission time, milliseconds since the Unix epoch.
    pub created_at: u64,
    /// When the current lease runs out, milliseconds since the Unix epoch.
    pub lease_expires: Option<u64>,
}

impl Clone for TaskEntry {
    fn clone(&self) -> (r: Self)
        ensures
            r == *self,
    {
        TaskEntry {
            task: self.task.clone(),
            status: self.status.clone(),
            assigned_to: match &self.assigned_to {
                Some(n) => Some(n.clone()),
                None => None,
            },
            created_at: self.created_at,
            lease_expires: self.lease_expires,
        }
    }
}

/// The current time in milliseconds since the Unix epoch, or `None` when
/// the clock reads earlier than the epoch. The value itself is the time, so
/// the contract says nothing of it: `millis_from_clock` states the
/// conversion of whatever the clock read.
pub fn now_ms() -> Option<u64> {
    millis_from_clock(system_millis())
}

/// The milliseconds of a clock reading as a `u64`: the reading's low 64
/// bits (what `as u64` keeps), or none for a clock before the epoch.
pub open spec fn clock_millis(reading: Option<u128>) -> Option<u64> {
    match reading {
        Some(ms) => Some((ms % 0x1_0000_0000_0000_0000) as u64),
        None => None,
    }
}

/// Converts a clock reading (milliseconds since the epoch, `None` before
/// it) into what `now_ms` returns.
pub fn millis_from_clock(reading: Option<u128>) -> (ms: Option<u64>)
    ensures
        ms == clock_millis(reading),
{
    match reading {
        Some(m) => {
            #[verifier::truncate]
            let r = m as u64;
            assert(r == m % 0x1_0000_0000_0000_0000) by (bit_vector)
                requires
                    r == m as u64,
            ;
            Some(r)
        },
        None => None,
    }
}

} // verus!
