//! What the task endpoints answer.
//!
//! The endpoints take already-parsed requests; these functions perform the
//! queue operation and decide the status code and the body. Forwarding and
//! replication over the network are handed back to the caller.

use vstd::prelude::*;

use crate::executor::protocol::{
    ForwardTaskRequest, GetTaskResponse, ReplicateTaskRequest, SubmitTaskResponse,
    TaskPartitionDumpResponse, TaskPartitionEntry, TaskStatusResponse,
};
use crate::executor::queue::{pending_entry, DistributedQueue};
use crate::executor::table::{lists, partition_keys};
use crate::executor::types::{TaskEntry, TaskId};
use crate::membership::service::MembershipService;
use crate::membership::types::NodeId;
use crate::storage::handlers::{STATUS_NOT_FOUND, STATUS_OK};
use crate::storage::memory::owners_for;
use crate::storage::partitioner::{id_views, partition_of};

verus! {

/// The public status of a stored task.
pub open spec fn status_of(task_id: TaskId, e: TaskEntry) -> TaskStatusResponse {
    TaskStatusResponse {
        task_id,
        status: e.status,
        assigned_to: e.assigned_to,
        created_at: e.created_at,
    }
}

/// The public status of a stored task.
pub fn task_status_response(task_id: TaskId, entry: TaskEntry) -> (r: TaskStatusResponse)
    ensures
        r == status_of(task_id, entry),
{
    TaskStatusResponse {
        task_id,
        status: entry.status,
        assigned_to: entry.assigned_to,
        created_at: entry.created_at,
    }
}

/// How to answer a status request.
#[derive(Debug)]
pub enum StatusPlan {
    /// Answer now with this status code and body.
    Answer(u16, Option<TaskStatusResponse>),
    /// Ask the primary of the task's partition (its internal status
    /// endpoint) and answer with what it says (see `remote_status_reply`).
    AskPrimary(NodeId),
}

/// The status of task `task_id`, wherever it is kept. The primary of the
/// task's partition holds its current status, so a node that is not the
/// primary asks it. This node answers itself, from what it stores (found or
/// not found), only when it is the primary or no node is alive.
pub fn handle_get_task_status(queue: &DistributedQueue, membership: &MembershipService, task_id: TaskId) -> (r:
    StatusPlan)
    requires
        queue.wf(),
        membership.wf(),
    ensures
        ({
            let p = partition_of(task_id@, queue.placement().num_partitions);
            let k = (p, task_id@);
            let owners = owners_for(queue.placement(), *membership, p);
            if owners.len() == 0 || owners[0] == membership.local_id() {
                if queue.tasks().contains_key(k) {
                    r == StatusPlan::Answer(STATUS_OK, Some(status_of(task_id, queue.tasks()[k])))
                } else {
                    r == StatusPlan::Answer(STATUS_NOT_FOUND, None)
                }
            } else {
                r matches StatusPlan::AskPrimary(n) && n@ == owners[0]
            }
        }),
{
    let partition = queue.partitioner().get_partition(task_id.0.as_str());
    let owners = queue.partitioner().get_owners(partition, membership);
    if owners.len() > 0 {
        proof {
            assert(id_views(owners@)[0] == owners@[0]@);
        }
        if !owners[0].same(membership.local_node_id()) {
            return StatusPlan::AskPrimary(owners[0].clone());
        }
    }
    match queue.get_task(&task_id) {
        Some(entry) => StatusPlan::Answer(STATUS_OK, Some(task_status_response(task_id, entry))),
        None => StatusPlan::Answer(STATUS_NOT_FOUND, None),
    }
}

/// The answer to a status request from what the primary said: the status
/// it reported (OK), or not found when it had none or could not be asked.
pub fn remote_status_reply(reported: Option<TaskStatusResponse>) -> (r: (u16, Option<TaskStatusResponse>))
    ensures
        r == (match reported {
            Some(s) => (STATUS_OK, Some(s)),
            None => (STATUS_NOT_FOUND, None::<TaskStatusResponse>),
        }),
{
    match reported {
        Some(s) => (STATUS_OK, Some(s)),
        None => (STATUS_NOT_FOUND, None),
    }
}

/// The status of task `task_id` as stored on this node.
pub fn handle_get_task_status_internal(queue: &DistributedQueue, task_id: TaskId) -> (r: (
    u16,
    Option<TaskStatusResponse>,
))
    requires
        queue.wf(),
    ensures
        ({
            let k = (partition_of(task_id@, queue.placement().num_partitions), task_id@);
            if queue.tasks().contains_key(k) {
                r == (STATUS_OK, Some(status_of(task_id, queue.tasks()[k])))
            } else {
                r == (STATUS_NOT_FOUND, None::<TaskStatusResponse>)
            }
        }),
{
    match queue.get_task(&task_id) {
        Some(entry) => (STATUS_OK, Some(task_status_response(task_id, entry))),
        None => (STATUS_NOT_FOUND, None),
    }
}

/// The full entry of task `task_id` as stored on this node.
pub fn handle_get_task_internal(queue: &DistributedQueue, task_id: TaskId) -> (r: (u16, GetTaskResponse))
    requires
        queue.wf(),
    ensures
        ({
            let k = (partition_of(task_id@, queue.placement().num_partitions), task_id@);
            if queue.tasks().contains_key(k) {
                r.0 == STATUS_OK && r.1.task == Some(queue.tasks()[k])
            } else {
                r.0 == STATUS_NOT_FOUND && r.1.task is None
            }
        }),
{
    match queue.get_task_local(&task_id) {
        Some(entry) => (STATUS_OK, GetTaskResponse { task: Some(entry) }),
        None => (STATUS_NOT_FOUND, GetTaskResponse { task: None }),
    }
}

/// A task forwarded here as the primary: stored pending, without checking
/// ownership again (so views of the cluster that differ cannot make tasks
/// bounce between nodes); the copy for the backups is handed back.
pub fn handle_internal_submit_task(
    queue: &mut DistributedQueue,
    req: ForwardTaskRequest,
    membership: &MembershipService,
    now: u64,
) -> (r: (SubmitTaskResponse, Option<(Vec<NodeId>, ReplicateTaskRequest)>))
    requires
        old(queue).wf(),
        membership.wf(),
    ensures
        final(queue).wf(),
        final(queue).placement() == old(queue).placement(),
        final(queue).node() == old(queue).node(),
        final(queue).tasks() == old(queue).tasks().insert(
            (req.partition, req.task_id@),
            pending_entry(req.task, now),
        ),
        r.0.task_id == req.task_id,
        ({
            let owners = owners_for(old(queue).placement(), *membership, req.partition);
            if owners.len() > 1 {
                r.1 matches Some((backups, rep)) && id_views(backups@) == owners.skip(1) && rep == (ReplicateTaskRequest {
                    partition: req.partition,
                    task_id: req.task_id,
                    entry: pending_entry(req.task, now),
                })
            } else {
                r.1 is None
            }
        }),
{
    let task_id = req.task_id.clone();
    let replicate = queue.store_as_primary(
        req.partition,
        req.task_id,
        TaskEntry {
            task: req.task,
            status: crate::executor::types::TaskStatus::Pending,
            assigned_to: None,
            created_at: now,
            lease_expires: None,
        },
        membership,
    );
    (SubmitTaskResponse { task_id }, replicate)
}

/// A task copied here from its primary: stored as sent.
pub fn handle_replicate_task(queue: &mut DistributedQueue, req: ReplicateTaskRequest) -> (status: u16)
    requires
        old(queue).wf(),
    ensures
        final(queue).wf(),
        final(queue).placement() == old(queue).placement(),
        final(queue).node() == old(queue).node(),
        final(queue).tasks() == old(queue).tasks().insert((req.partition, req.task_id@), req.entry),
        status == STATUS_OK,
{
    queue.store_local(req.partition, req.task_id, req.entry);
    STATUS_OK
}

/// All tasks stored here for `partition`, each once.
pub fn handle_task_partition_dump(queue: &DistributedQueue, partition: u32) -> (r: (
    u16,
    TaskPartitionDumpResponse,
))
    requires
        queue.wf(),
    ensures
        r.0 == STATUS_OK,
        r.1.partition == partition,
        ({
            let listed = r.1.entries@.map_values(|e: TaskPartitionEntry| (e.task_id, e.entry));
            lists(
                listed,
                Seq::new(listed.len(), |i: int| partition),
                queue.tasks(),
                partition_keys(queue.tasks(), partition),
            )
        }),
{
    let tasks = queue.dump_partition(partition);
    let ghost tv = tasks@;
    let mut tasks = tasks;
    let mut entries: Vec<TaskPartitionEntry> = Vec::new();
    let n = tasks.len();
    let mut i: usize = 0;
    while i < n
        invariant
            n == tv.len(),
            i <= n,
            tasks@ == tv.skip(i as int),
            entries@.map_values(|e: TaskPartitionEntry| (e.task_id, e.entry)) == tv.take(i as int),
        decreases n - i,
    {
        let x = tasks.remove(0);
        proof {
            assert(x == tv[i as int]);
            assert(tasks@ =~= tv.skip(i + 1));
        }
        let (task_id, entry) = x;
        let ghost before = entries@;
        entries.push(TaskPartitionEntry { task_id, entry });
        proof {
            assert(entries@.map_values(|e: TaskPartitionEntry| (e.task_id, e.entry)) =~= before.map_values(
                |e: TaskPartitionEntry| (e.task_id, e.entry),
            ).push(tv[i as int]));
            assert(entries@.map_values(|e: TaskPartitionEntry| (e.task_id, e.entry)) =~= tv.take(i + 1));
        }
        i = i + 1;
    }
    proof {
        assert(tv.take(n as int) =~= tv);
        assert(entries@.map_values(|e: TaskPartitionEntry| (e.task_id, e.entry)) == tv);
    }
    (STATUS_OK, TaskPartitionDumpResponse { partition, entries })
}

} // verus!
