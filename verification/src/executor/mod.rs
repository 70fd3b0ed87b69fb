//! Distributed task execution.
//!
//! Tasks are submitted to a `DistributedQueue`, which places each task on
//! the primary owner of its id's partition. Workers on the primary poll
//! their partitions for pending tasks, claim one by taking a lease, run it,
//! and record the outcome. A lease that is not renewed expires.
//!
//! - `types`: tasks, their ids, states and queue entries.
//! - `queue`: the local task table and its state transitions.
//! - `registry`: the table of named task handlers.
//! - `protocol`: the messages exchanged between nodes.
//! - `handlers`: what the task endpoints answer.
//! - `worker`: the decisions of a worker.

pub mod handlers;
pub mod laws;
pub mod protocol;
pub mod queue;
pub mod registry;
pub mod table;
pub mod types;
pub mod worker;
