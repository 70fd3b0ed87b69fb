//! The decisions of a task worker.
//!
//! A worker repeatedly looks at the tasks it may pick up, claims the first
//! one it can, runs it and records the outcome. Running the handler and
//! sleeping are left to the caller; one round of deciding is `worker_step`.

use vstd::prelude::*;

use crate::executor::queue::{
    ascending, claimable, claimed_entry, first_claimable, pickable_keys, primary_parts_of,
    DistributedQueue, LEASE_MS,
};
use crate::executor::table::{lists, TaskView};
use crate::executor::types::{Task, TaskEntry, TaskId};
use crate::membership::service::MembershipService;
use crate::storage::partitioner::partition_of;

verus! {

/// Pause when there was nothing to pick up (milliseconds).
pub const IDLE_SLEEP_MS: u64 = 100;

/// Pause when every available task was taken by another worker
/// (milliseconds).
pub const CONTENDED_SLEEP_MS: u64 = 50;

/// Interval between renewals of a running task's lease (milliseconds).
pub const LEASE_RENEWAL_INTERVAL_MS: u64 = 10_000;

/// One round of lease renewal for a task this worker is running: the lease
/// is renewed, and renewing goes on exactly while it succeeds. Once the
/// task is gone or no longer running, renewal stops and nothing changes.
pub fn renewal_step(queue: &mut DistributedQueue, task_id: &TaskId, now: u64) -> (keep_going: bool)
    requires
        old(queue).wf(),
        now <= u64::MAX - LEASE_MS,
    ensures
        ({
            let k = (partition_of(task_id@, old(queue).placement().num_partitions), task_id@);
            let t = old(queue).tasks();
            &&& final(queue).wf()
            &&& final(queue).placement() == old(queue).placement()
            &&& final(queue).node() == old(queue).node()
            &&& keep_going == (t.contains_key(k) && t[k].status is Running)
            &&& final(queue).tasks() == if keep_going {
                t.insert(k, TaskEntry { lease_expires: Some((now + LEASE_MS) as u64), ..t[k] })
            } else {
                t
            }
        }),
{
    queue.renew_lease(task_id, now).is_ok()
}

/// What a worker does next.
#[derive(Debug)]
pub enum WorkerAction {
    /// The claimed task, to be carried out and then completed.
    Execute { task_id: TaskId, task: Task },
    /// Wait this long before looking again.
    Sleep { millis: u64 },
}

/// The keys of the tasks a worker of `queue` may pick up at `now`.
pub open spec fn pickable(queue: DistributedQueue, membership: MembershipService, now: u64) -> Set<(u32, Seq<char>)> {
    pickable_keys(queue.tasks(), primary_parts_of(queue.placement(), membership), now)
}

/// What `first_claimable` finds: a claimable task, before which none is;
/// or no claimable task at all.
proof fn lemma_first_claimable(tasks: TaskView, np: u32, list: Seq<(TaskId, TaskEntry)>, now: u64)
    ensures
        match first_claimable(tasks, np, list, now) {
            Some(i) => i < list.len() && claimable(tasks, np, list[i as int].0@, now),
            None => forall|j: int| 0 <= j < list.len() ==> !claimable(tasks, np, #[trigger] list[j].0@, now),
        },
    decreases list.len(),
{
    if list.len() > 0 && !claimable(tasks, np, list[0].0@, now) {
        lemma_first_claimable(tasks, np, list.drop_first(), now);
        match first_claimable(tasks, np, list.drop_first(), now) {
            Some(i) => {
                assert(list.drop_first()[i as int] == list[i + 1int]);
            },
            None => {
                assert forall|j: int| 0 <= j < list.len() implies !claimable(tasks, np, #[trigger] list[j].0@, now) by {
                    if j > 0 {
                        assert(list.drop_first()[j - 1] == list[j]);
                    }
                }
            },
        }
    }
}

/// One round of a worker: with nothing to pick up, sleep 100 ms; otherwise
/// go through the tasks it may pick up (partition by partition, ascending)
/// and claim the first one that can still be claimed, and run it; if none
/// can, sleep 50 ms.
pub fn worker_step(queue: &mut DistributedQueue, membership: &MembershipService, now: u64) -> (a: WorkerAction)
    requires
        old(queue).wf(),
        membership.wf(),
        now <= u64::MAX - LEASE_MS,
    ensures
        final(queue).wf(),
        final(queue).placement() == old(queue).placement(),
        final(queue).node() == old(queue).node(),
        ({
            let keys = pickable(*old(queue), *membership, now);
            let t = old(queue).tasks();
            let np = old(queue).placement().num_partitions;
            match a {
                WorkerAction::Sleep { millis } => {
                    &&& final(queue).tasks() == t
                    &&& millis == IDLE_SLEEP_MS <==> keys.is_empty()
                    &&& millis == IDLE_SLEEP_MS || millis == CONTENDED_SLEEP_MS
                    &&& forall|k: (u32, Seq<char>)| #[trigger] keys.contains(k) ==> !claimable(t, np, k.1, now)
                },
                WorkerAction::Execute { task_id, task } => {
                    let k = (partition_of(task_id@, np), task_id@);
                    &&& exists|p: u32| #[trigger] keys.contains((p, task_id@)) && t[(p, task_id@)].task == task
                    &&& claimable(t, np, task_id@, now)
                    &&& final(queue).tasks() == t.insert(k, claimed_entry(t[k], old(queue).node(), now))
                },
            }
        }),
        exists|r: Seq<(TaskId, TaskEntry)>, ps: Seq<u32>|
            #![trigger lists(r, ps, old(queue).tasks(), pickable(*old(queue), *membership, now))]
            {
                let t = old(queue).tasks();
                let np = old(queue).placement().num_partitions;
                &&& lists(r, ps, t, pickable(*old(queue), *membership, now))
                &&& ascending(ps)
                &&& if r.len() == 0 {
                    a == (WorkerAction::Sleep { millis: IDLE_SLEEP_MS })
                } else {
                    match first_claimable(t, np, r, now) {
                        Some(i) => a == (WorkerAction::Execute { task_id: r[i as int].0, task: r[i as int].1.task }),
                        None => a == (WorkerAction::Sleep { millis: CONTENDED_SLEEP_MS }),
                    }
                }
            },
{
    let pending = queue.my_pending_tasks(membership, now);
    let ghost t = queue.tasks();
    let ghost np = queue.placement().num_partitions;
    let ghost keys = pickable(*queue, *membership, now);
    let ghost ps = choose|ps: Seq<u32>| lists(pending@, ps, t, keys) && ascending(ps);
    proof {
        lemma_first_claimable(t, np, pending@, now);
    }
    if pending.len() == 0 {
        proof {
            assert(keys =~= Set::<(u32, Seq<char>)>::empty()) by {
                assert forall|k: (u32, Seq<char>)| !keys.contains(k) by {
                    if keys.contains(k) {
                        let i = choose|i: int| #![trigger pending@[i]] 0 <= i < pending@.len() && (ps[i], pending@[i].0@) == k;
                    }
                }
            }
        }
        proof {
            assert(lists(pending@, ps, t, keys) && ascending(ps));
        }
        return WorkerAction::Sleep { millis: IDLE_SLEEP_MS };
    }
    proof {
        assert(pending@[0] == pending@[0]);
        assert(keys.contains((ps[0], pending@[0].0@)));
    }
    match queue.claim_next(&pending, now) {
        Some((task_id, task)) => {
            proof {
                let i = first_claimable(t, np, pending@, now)->0 as int;
                assert(pending@[i] == pending@[i]);
                assert(keys.contains((ps[i], pending@[i].0@)));
                assert(lists(pending@, ps, t, keys) && ascending(ps));
            }
            WorkerAction::Execute { task_id, task }
        },
        None => {
            proof {
                assert forall|k: (u32, Seq<char>)| #[trigger] keys.contains(k) implies !claimable(t, np, k.1, now) by {
                    let i = choose|i: int| #![trigger pending@[i]] 0 <= i < pending@.len() && (ps[i], pending@[i].0@) == k;
                }
                assert(lists(pending@, ps, t, keys) && ascending(ps));
            }
            WorkerAction::Sleep { millis: CONTENDED_SLEEP_MS }
        },
    }
}

} // verus!
