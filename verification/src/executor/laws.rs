//! Laws of the task lifecycle.

use vstd::prelude::*;

use crate::executor::queue::{
    claimable, claimed_entry, completed_entry, first_claimable, is_available, pending_entry, LEASE_MS,
};
use crate::executor::types::TaskId;
use crate::executor::table::TaskView;
use crate::executor::types::{Task, TaskEntry};
use crate::membership::types::NodeId;
use crate::storage::partitioner::partition_of;

verus! {

/// A claimed task cannot be claimed again: at most one worker wins it.
pub proof fn law_claim_is_exclusive(tasks: TaskView, num_partitions: u32, id: Seq<char>, node: NodeId, now: u64)
    requires
        claimable(tasks, num_partitions, id, now),
        now <= u64::MAX - LEASE_MS,
    ensures
        ({
            let k = (partition_of(id, num_partitions), id);
            !claimable(tasks.insert(k, claimed_entry(tasks[k], node, now)), num_partitions, id, now)
        }),
{
}

/// A submitted task is pending and can be picked up at once.
pub proof fn law_submitted_task_is_available(task: Task, created: u64, now: u64)
    ensures
        pending_entry(task, created).status is Pending,
        is_available(pending_entry(task, created), now),
{
}

/// A claimed task is not available to other workers until its lease runs
/// out, and is available once it has.
pub proof fn law_lease_guards_claim(e: TaskEntry, node: NodeId, claimed_at: u64, now: u64)
    requires
        claimed_at <= u64::MAX - LEASE_MS,
    ensures
        is_available(claimed_entry(e, node, claimed_at), now) <==> now > claimed_at + LEASE_MS,
        claimed_entry(e, node, claimed_at).assigned_to == Some(node),
{
}

/// A finished task (completed or failed) holds no lease and is never
/// picked up again.
pub proof fn law_finished_task_is_final(e: TaskEntry, result: Result<(), String>, now: u64)
    ensures
        completed_entry(e, result).lease_expires is None,
        !is_available(completed_entry(e, result), now),
        result is Ok ==> completed_entry(e, result).status is Completed,
        result is Err ==> completed_entry(e, result).status is Failed,
{
}

/// A worker picks the first task of its listing that can be claimed: the
/// chosen position holds a claimable task and none before it does; when
/// nothing is chosen, no task of the listing can be claimed.
pub proof fn law_first_claimable_is_first(
    tasks: TaskView,
    num_partitions: u32,
    list: Seq<(TaskId, TaskEntry)>,
    now: u64,
)
    ensures
        first_claimable(tasks, num_partitions, list, now) matches Some(i) ==> i < list.len() && claimable(
            tasks,
            num_partitions,
            list[i as int].0@,
            now,
        ) && forall|j: int| 0 <= j < i ==> !claimable(tasks, num_partitions, #[trigger] list[j].0@, now),
        first_claimable(tasks, num_partitions, list, now) is None ==> forall|j: int|
            0 <= j < list.len() ==> !claimable(tasks, num_partitions, #[trigger] list[j].0@, now),
    decreases list.len(),
{
    if list.len() > 0 && !claimable(tasks, num_partitions, list[0].0@, now) {
        let rest = list.drop_first();
        law_first_claimable_is_first(tasks, num_partitions, rest, now);
        assert forall|j: int| 1 <= j < list.len() implies list[j] == #[trigger] rest[j - 1] by {}
        if first_claimable(tasks, num_partitions, list, now) is None {
            assert forall|j: int| 0 <= j < list.len() implies !claimable(tasks, num_partitions, #[trigger] list[j].0@, now) by {
                if j > 0 {
                    assert(list[j] == rest[j - 1]);
                }
            }
        } else {
            let i = first_claimable(tasks, num_partitions, list, now)->0;
            assert(list[i as int] == rest[i - 1]);
            assert forall|j: int| 0 <= j < i implies !claimable(tasks, num_partitions, #[trigger] list[j].0@, now) by {
                if j > 0 {
                    assert(list[j] == rest[j - 1]);
                }
            }
        }
    }
}

/// A running task whose lease has run out can be picked up again (the
/// worker holding it is presumed gone); a pending task always can; a
/// finished one never can. Claiming and finishing keep the task itself and
/// when it was submitted.
pub proof fn law_leases_and_retries(e: TaskEntry, node: NodeId, result: Result<(), String>, now: u64)
    ensures
        e.status is Running && e.lease_expires is Some && now > e.lease_expires->0 ==> is_available(e, now),
        e.status is Running && e.lease_expires is Some && now <= e.lease_expires->0 ==> !is_available(e, now),
        e.status is Pending ==> is_available(e, now),
        e.status is Completed || e.status is Failed ==> !is_available(e, now),
        claimed_entry(e, node, now).task == e.task,
        claimed_entry(e, node, now).created_at == e.created_at,
        completed_entry(e, result).task == e.task,
        completed_entry(e, result).created_at == e.created_at,
        completed_entry(e, result).assigned_to == e.assigned_to,
{
}

} // verus!
