//! The task queue of a node.
//!
//! The queue keeps the tasks of the partitions this node holds, keyed by
//! (partition, task id), and carries out the transitions of a task's life:
//! submission, claim under a lease, lease renewal, and completion. Network
//! transfers are handed back to the caller.

use vstd::prelude::*;

use crate::executor::protocol::{ForwardTaskRequest, ReplicateTaskRequest};
use crate::executor::table::{
    lists, partition_keys, table_get, table_insert, table_new, table_partition, task_table,
    TaskTable, TaskView,
};
use crate::executor::types::{Task, TaskEntry, TaskId, TaskStatus};
use crate::membership::service::MembershipService;
use crate::membership::types::NodeId;
use crate::storage::memory::owners_for;
use crate::storage::partitioner::{
    id_views, is_primary, partition_of, primary_partitions, ring_of, PartitionManager,
};

verus! {

/// How long a claim or a renewal holds a task (milliseconds).
pub const LEASE_MS: u64 = 30000;

/// Why a queue operation did not apply.
#[derive(Debug)]
pub enum QueueError {
    /// The task is not running (its status is given).
    TaskNotRunning { status: TaskStatus },
    /// No such task on this node.
    TaskNotFound,
}

/// What remains to be done over the network after a submission.
#[derive(Debug)]
pub enum SubmitFollowUp {
    /// Nothing: the task is stored here and there is no backup.
    Done,
    /// The task is stored here as primary: copy it to each backup.
    Replicate { backups: Vec<NodeId>, copy: ReplicateTaskRequest },
    /// The task belongs to another primary: forward it there.
    Forward { primary: NodeId, request: ForwardTaskRequest },
}

/// A freshly submitted task.
pub open spec fn pending_entry(task: Task, now: u64) -> TaskEntry {
    TaskEntry {
        task,
        status: TaskStatus::Pending,
        assigned_to: None,
        created_at: now,
        lease_expires: None,
    }
}

/// Whether a worker may pick the task up: it is pending, or running with a
/// lease that has run out.
pub open spec fn is_available(e: TaskEntry, now: u64) -> bool {
    ||| e.status is Pending
    ||| (e.status is Running && e.lease_expires is Some && now > e.lease_expires->0)
}

/// A task claimed by `node` at `now`: running, assigned, leased.
pub open spec fn claimed_entry(e: TaskEntry, node: NodeId, now: u64) -> TaskEntry {
    TaskEntry {
        status: TaskStatus::Running,
        assigned_to: Some(node),
        lease_expires: Some((now + LEASE_MS) as u64),
        ..e
    }
}

/// A task whose handler returned `result`: completed or failed, no lease.
pub open spec fn completed_entry(e: TaskEntry, result: Result<(), String>) -> TaskEntry {
    TaskEntry {
        status: match result {
            Ok(_) => TaskStatus::Completed,
            Err(msg) => TaskStatus::Failed { error: msg },
        },
        lease_expires: None,
        ..e
    }
}

/// The keys of the tasks a worker may pick up: those of the partitions
/// `parts` that are available at `now`.
pub open spec fn pickable_keys(t: TaskView, parts: Seq<u32>, now: u64) -> Set<(u32, Seq<char>)> {
    Set::new(|k: (u32, Seq<char>)| t.contains_key(k) && parts.contains(k.0) && is_available(t[k], now))
}

/// The partitions below `upto` of which `local` is the primary are below
/// `upto` and ascending.
proof fn lemma_primary_ascending(rf: nat, ring: Seq<Seq<char>>, local: Seq<char>, upto: nat)
    requires
        upto <= 0x1_0000_0000,
    ensures
        forall|i: int|
            0 <= i < primary_partitions(rf, ring, local, upto).len() ==> #[trigger] primary_partitions(
                rf,
                ring,
                local,
                upto,
            )[i] < upto,
        forall|i: int, j: int|
            0 <= i < j < primary_partitions(rf, ring, local, upto).len() ==> #[trigger] primary_partitions(
                rf,
                ring,
                local,
                upto,
            )[i] < #[trigger] primary_partitions(rf, ring, local, upto)[j],
    decreases upto,
{
    if upto > 0 {
        let prev = (upto - 1) as nat;
        lemma_primary_ascending(rf, ring, local, prev);
        let rest = primary_partitions(rf, ring, local, prev);
        let cur = primary_partitions(rf, ring, local, upto);
        if is_primary(rf, prev as u32, ring, local) {
            assert(cur == rest.push(prev as u32));
            assert forall|i: int| 0 <= i < cur.len() implies #[trigger] cur[i] < upto by {
                if i < rest.len() {
                    assert(cur[i] == rest[i]);
                }
            }
            assert forall|i: int, j: int| 0 <= i < j < cur.len() implies #[trigger] cur[i] < #[trigger] cur[j] by {
                assert(cur[i] == rest[i]);
                if j < rest.len() {
                    assert(cur[j] == rest[j]);
                }
            }
        } else {
            assert(cur == rest);
        }
    }
}

/// The partitions of which the local node of `membership` is the primary,
/// ascending.
pub open spec fn primary_parts_of(placement: PartitionManager, membership: MembershipService) -> Seq<u32> {
    primary_partitions(
        placement.replication_factor as nat,
        ring_of(membership.view_map()),
        membership.local_id(),
        placement.num_partitions as nat,
    )
}

/// The keys, in partition `p`, of the available tasks among the first
/// `upto` of `entries`.
pub open spec fn available_prefix(entries: Seq<(TaskId, TaskEntry)>, p: u32, upto: int, now: u64) -> Set<
    (u32, Seq<char>),
> {
    Set::new(
        |k: (u32, Seq<char>)|
            k.0 == p && exists|q: int|
                0 <= q < upto && #[trigger] entries[q].0@ == k.1 && is_available(entries[q].1, now),
    )
}

/// Whether partitions come in ascending order.
#[verifier::opaque]
pub open spec fn ascending(ps: Seq<u32>) -> bool {
    forall|a: int, b: int| 0 <= a < b < ps.len() ==> #[trigger] ps[a] <= #[trigger] ps[b]
}

/// Listing one more entry, under a key not yet listed.
proof fn lemma_lists_push(
    r: Seq<(TaskId, TaskEntry)>,
    ps: Seq<u32>,
    t: TaskView,
    keys: Set<(u32, Seq<char>)>,
    x: (TaskId, TaskEntry),
    p: u32,
)
    requires
        lists(r, ps, t, keys),
        t.contains_key((p, x.0@)),
        t[(p, x.0@)] == x.1,
        !keys.contains((p, x.0@)),
    ensures
        lists(r.push(x), ps.push(p), t, keys.insert((p, x.0@))),
{
    let r2 = r.push(x);
    let ps2 = ps.push(p);
    let keys2 = keys.insert((p, x.0@));
    assert forall|i: int| #![trigger r2[i]] 0 <= i < r2.len() implies keys2.contains((ps2[i], r2[i].0@))
        && t.contains_key((ps2[i], r2[i].0@)) && t[(ps2[i], r2[i].0@)] == r2[i].1 by {
        if i < r.len() {
            assert(r2[i] == r[i]);
        }
    }
    assert forall|i: int, j: int| #![trigger r2[i], r2[j]] 0 <= i < j < r2.len() implies (ps2[i], r2[i].0@) != (
    ps2[j],
    r2[j].0@,
    ) by {
        assert(r2[i] == r[i]);
        if j < r.len() {
            assert(r2[j] == r[j]);
        } else {
            assert(keys.contains((ps[i], r[i].0@)));
        }
    }
    assert forall|k: (u32, Seq<char>)| #[trigger] keys2.contains(k) implies exists|i: int|
        #![trigger r2[i]]
        0 <= i < r2.len() && (ps2[i], r2[i].0@) == k by {
        if k == (p, x.0@) {
            assert(r2[r.len() as int] == x);
        } else {
            let i = choose|i: int| #![trigger r[i]] 0 <= i < r.len() && (ps[i], r[i].0@) == k;
            assert(r2[i] == r[i]);
        }
    }
}

/// Whether the task `id` can be claimed at `now`: it is stored under its
/// own partition and available (pending, or running with an expired lease,
/// so that an abandoned task is retried).
pub open spec fn claimable(tasks: TaskView, num_partitions: u32, id: Seq<char>, now: u64) -> bool {
    let k = (partition_of(id, num_partitions), id);
    tasks.contains_key(k) && is_available(tasks[k], now)
}

/// The position of the first task of `list` that can be claimed at `now`.
pub open spec fn first_claimable(tasks: TaskView, num_partitions: u32, list: Seq<(TaskId, TaskEntry)>, now: u64) -> Option<nat>
    decreases list.len(),
{
    if list.len() == 0 {
        None
    } else if claimable(tasks, num_partitions, list[0].0@, now) {
        Some(0)
    } else {
        match first_claimable(tasks, num_partitions, list.drop_first(), now) {
            Some(i) => Some(i + 1),
            None => None,
        }
    }
}

/// The task table of a node.
pub struct DistributedQueue {
    local_tasks: TaskTable,
    partitioner: PartitionManager,
    local_id: NodeId,
}

impl DistributedQueue {
    pub closed spec fn wf(&self) -> bool {
        self.partitioner.wf()
    }

    /// The tasks stored here.
    pub closed spec fn tasks(&self) -> TaskView {
        task_table(self.local_tasks)
    }

    /// The placement the queue uses.
    pub closed spec fn placement(&self) -> PartitionManager {
        self.partitioner
    }

    /// The node this queue runs on.
    pub closed spec fn node(&self) -> NodeId {
        self.local_id
    }

    /// An empty queue for the local node of `membership`.
    pub fn new(membership: &MembershipService, partitioner: PartitionManager) -> (q: Self)
        requires
            partitioner.wf(),
        ensures
            q.wf(),
            q.tasks() == TaskView::empty(),
            q.placement() == partitioner,
            q.node() == membership.local().id,
    {
        DistributedQueue {
            local_tasks: table_new(),
            partitioner,
            local_id: membership.local_node_id().clone(),
        }
    }

    /// The placement the queue uses.
    pub fn partitioner(&self) -> (p: &PartitionManager)
        requires
            self.wf(),
        ensures
            *p == self.placement(),
            p.wf(),
    {
        &self.partitioner
    }

    /// Stores `entry` as task `task_id` of `partition`, replacing what was
    /// there.
    pub fn store_local(&mut self, partition: u32, task_id: TaskId, entry: TaskEntry)
        requires
            old(self).wf(),
        ensures
            final(self).wf(),
            final(self).placement() == old(self).placement(),
            final(self).node() == old(self).node(),
            final(self).tasks() == old(self).tasks().insert((partition, task_id@), entry),
    {
        table_insert(&mut self.local_tasks, partition, task_id, entry);
    }

    /// Submits a task under a fresh id. With no live node it is stored here,
    /// pending. When this node is the primary of the id's partition it is
    /// stored here, pending, and handed back to be copied to each backup.
    /// Otherwise it is handed back to be forwarded to the primary.
    pub fn submit(&mut self, task: Task, membership: &MembershipService, now: u64) -> (r: (
        TaskId,
        SubmitFollowUp,
    ))
        requires
            old(self).wf(),
            membership.wf(),
        ensures
            ({
                let id = r.0;
                let p = partition_of(id@, old(self).placement().num_partitions);
                let owners = owners_for(old(self).placement(), *membership, p);
                &&& final(self).wf()
                &&& final(self).placement() == old(self).placement()
                &&& final(self).node() == old(self).node()
                &&& if owners.len() == 0 {
                    &&& final(self).tasks() == old(self).tasks().insert((p, id@), pending_entry(task, now))
                    &&& r.1 is Done
                } else if owners[0] == membership.local_id() {
                    &&& final(self).tasks() == old(self).tasks().insert((p, id@), pending_entry(task, now))
                    &&& if owners.len() > 1 {
                        r.1 matches SubmitFollowUp::Replicate { backups, copy } && id_views(backups@)
                            == owners.skip(1) && copy == (ReplicateTaskRequest {
                            partition: p,
                            task_id: id,
                            entry: pending_entry(task, now),
                        })
                    } else {
                        r.1 is Done
                    }
                } else {
                    &&& final(self).tasks() == old(self).tasks()
                    &&& r.1 matches SubmitFollowUp::Forward { primary, request } && primary@ == owners[0]
                        && request == (ForwardTaskRequest { partition: p, task_id: id, task })
                }
            }),
    {
        let task_id = TaskId::new();
        let partition = self.partitioner.get_partition(task_id.0.as_str());
        let owners = self.partitioner.get_owners(partition, membership);
        let entry = TaskEntry {
            task,
            status: TaskStatus::Pending,
            assigned_to: None,
            created_at: now,
            lease_expires: None,
        };
        if owners.len() == 0 {
            self.store_local(partition, task_id.clone(), entry);
            return (task_id, SubmitFollowUp::Done);
        }
        proof {
            assert(id_views(owners@)[0] == owners@[0]@);
        }
        if owners[0].same(membership.local_node_id()) {
            match self.store_as_primary(partition, task_id.clone(), entry, membership) {
                Some((backups, copy)) => (task_id, SubmitFollowUp::Replicate { backups, copy }),
                None => (task_id, SubmitFollowUp::Done),
            }
        } else {
            let request = ForwardTaskRequest { partition, task_id: task_id.clone(), task: entry.task };
            (task_id, SubmitFollowUp::Forward { primary: owners[0].clone(), request })
        }
    }

    /// Stores a task as the primary of `partition`, and hands back the copy
    /// to replicate to each backup, when the partition has any.
    pub fn store_as_primary(
        &mut self,
        partition: u32,
        task_id: TaskId,
        entry: TaskEntry,
        membership: &MembershipService,
    ) -> (r: Option<(Vec<NodeId>, ReplicateTaskRequest)>)
        requires
            old(self).wf(),
            membership.wf(),
        ensures
            final(self).wf(),
            final(self).placement() == old(self).placement(),
            final(self).node() == old(self).node(),
            final(self).tasks() == old(self).tasks().insert((partition, task_id@), entry),
            ({
                let owners = owners_for(old(self).placement(), *membership, partition);
                if owners.len() > 1 {
                    r matches Some((backups, req)) && id_views(backups@) == owners.skip(1) && req
                        == (ReplicateTaskRequest { partition, task_id, entry })
                } else {
                    r is None
                }
            }),
    {
        let req = ReplicateTaskRequest { partition, task_id: task_id.clone(), entry: entry.clone() };
        self.store_local(partition, task_id, entry);
        let owners = self.partitioner.get_owners(partition, membership);
        if owners.len() > 1 {
            Some((PartitionManager::backups_of(&owners), req))
        } else {
            None
        }
    }

    /// The tasks a worker here may pick up: those of the partitions this
    /// node is primary of that are pending or whose lease has run out, each
    /// once, partition by partition in ascending order of partition (within
    /// a partition in the order of its hash table).
    pub fn my_pending_tasks(&self, membership: &MembershipService, now: u64) -> (r: Vec<(TaskId, TaskEntry)>)
        requires
            self.wf(),
            membership.wf(),
        ensures
            exists|ps: Seq<u32>|
                lists(
                    r@,
                    ps,
                    self.tasks(),
                    pickable_keys(self.tasks(), primary_parts_of(self.placement(), *membership), now),
                ) && ascending(ps),
    {
        let parts = self.partitioner.my_primary_partitions(membership);
        let ghost t = self.tasks();
        proof {
            reveal(ascending);
            lemma_primary_ascending(
                self.placement().replication_factor as nat,
                ring_of(membership.view_map()),
                membership.local_id(),
                self.placement().num_partitions as nat,
            );
            assert(pickable_keys(t, parts@.take(0), now) =~= Set::<(u32, Seq<char>)>::empty());
        }
        let mut out: Vec<(TaskId, TaskEntry)> = Vec::new();
        let ghost mut ps: Seq<u32> = Seq::empty();
        let np = parts.len();
        let mut i: usize = 0;
        while i < np
            invariant
                self.wf(),
                t == self.tasks(),
                np == parts@.len(),
                i <= np,
                forall|a: int, b: int| 0 <= a < b < parts@.len() ==> #[trigger] parts@[a] < #[trigger] parts@[b],
                lists(out@, ps, t, pickable_keys(t, parts@.take(i as int), now)),
                ascending(ps),
                i == 0 ==> ps.len() == 0,
                i > 0 ==> forall|a: int| 0 <= a < ps.len() ==> #[trigger] ps[a] <= parts@[i - 1],
            decreases np - i,
        {
            let p = parts[i];
            let entries = table_partition(&self.local_tasks, p);
            let ghost done = pickable_keys(t, parts@.take(i as int), now);
            proof {
                assert(!parts@.take(i as int).contains(p)) by {
                    if parts@.take(i as int).contains(p) {
                        let a = choose|a: int| 0 <= a < i && parts@.take(i as int)[a] == p;
                        assert(parts@[a] < parts@[i as int]);
                    }
                }
                assert(done.union(available_prefix(entries@, p, 0, now)) =~= done);
                if i > 0 {
                    assert(parts@[i - 1] < parts@[i as int]);
                }
            }
            let ne = entries.len();
            let mut j: usize = 0;
            while j < ne
                invariant
                    t == self.tasks(),
                    ne == entries@.len(),
                    j <= ne,
                    lists(entries@, Seq::new(entries@.len(), |q: int| p), t, partition_keys(t, p)),
                    !parts@.take(i as int).contains(p),
                    done == pickable_keys(t, parts@.take(i as int), now),
                    lists(out@, ps, t, done.union(available_prefix(entries@, p, j as int, now))),
                    ascending(ps),
                    forall|a: int| 0 <= a < ps.len() ==> #[trigger] ps[a] <= p,
                decreases ne - j,
            {
                let e = &entries[j];
                let available = match e.1.status {
                    TaskStatus::Pending => true,
                    TaskStatus::Running => match e.1.lease_expires {
                        Some(lease) => now > lease,
                        None => false,
                    },
                    _ => false,
                };
                let ghost keys = done.union(available_prefix(entries@, p, j as int, now));
                let ghost k = (p, entries@[j as int].0@);
                proof {
                    assert(entries@[j as int] == entries@[j as int]);
                    assert(Seq::new(entries@.len(), |q: int| p)[j as int] == p);
                }
                if available {
                    proof {
                        assert(!keys.contains(k)) by {
                            if available_prefix(entries@, p, j as int, now).contains(k) {
                                let q = choose|q: int|
                                    0 <= q < j && #[trigger] entries@[q].0@ == k.1 && is_available(
                                        entries@[q].1,
                                        now,
                                    );
                                assert(Seq::new(entries@.len(), |q: int| p)[q] == p);
                                assert(entries@[q] == entries@[q]);
                            }
                        }
                        lemma_lists_push(out@, ps, t, keys, *e, p);
                        ps = ps.push(p);
                        assert(ascending(ps)) by {
                            reveal(ascending);
                            assert forall|a: int, b: int| 0 <= a < b < ps.len() implies #[trigger] ps[a] <= #[trigger] ps[b] by {
                                if b == ps.len() - 1 {
                                    assert(ps[a] == ps.drop_last()[a]);
                                } else {
                                    assert(ps[a] == ps.drop_last()[a] && ps[b] == ps.drop_last()[b]);
                                }
                            }
                        }
                    }
                    out.push((e.0.clone(), e.1.clone()));
                    proof {
                        assert(keys.insert(k) =~= done.union(available_prefix(entries@, p, j + 1, now)));
                    }
                } else {
                    proof {
                        assert(keys =~= done.union(available_prefix(entries@, p, j + 1, now)));
                    }
                }
                j = j + 1;
            }
            proof {
                assert(parts@.take(i + 1) =~= parts@.take(i as int).push(p));
                assert forall|k: (u32, Seq<char>)|
                    #![auto]
                    pickable_keys(t, parts@.take(i + 1), now).contains(k) implies done.union(
                    available_prefix(entries@, p, ne as int, now),
                ).contains(k) by {
                    if k.0 == p && !parts@.take(i as int).contains(k.0) {
                        assert(partition_keys(t, p).contains(k));
                        let q = choose|q: int| #![trigger entries@[q]] 0 <= q < entries@.len() && (Seq::new(entries@.len(), |q: int| p)[q], entries@[q].0@) == k;
                        assert(Seq::new(entries@.len(), |q: int| p)[q] == p);
                        assert(entries@[q] == entries@[q]);
                    }
                }
                assert forall|k: (u32, Seq<char>)|
                    #![auto]
                    done.union(available_prefix(entries@, p, ne as int, now)).contains(k) implies pickable_keys(
                    t,
                    parts@.take(i + 1),
                    now,
                ).contains(k) by {
                    assert(parts@.take(i + 1)[i as int] == p);
                    if available_prefix(entries@, p, ne as int, now).contains(k) {
                        let q = choose|q: int|
                            0 <= q < ne && #[trigger] entries@[q].0@ == k.1 && is_available(entries@[q].1, now);
                        assert(Seq::new(entries@.len(), |q: int| p)[q] == p);
                        assert(entries@[q] == entries@[q]);
                    } else {
                        let a = choose|a: int| 0 <= a < i && parts@.take(i as int)[a] == k.0;
                        assert(parts@.take(i + 1)[a] == k.0);
                    }
                }
                assert(pickable_keys(t, parts@.take(i + 1), now) =~= done.union(
                    available_prefix(entries@, p, ne as int, now),
                ));
            }
            i = i + 1;
        }
        proof {
            assert(parts@.take(np as int) =~= parts@);
            assert(lists(
                out@,
                ps,
                self.tasks(),
                pickable_keys(self.tasks(), primary_parts_of(self.placement(), *membership), now),
            ) && ascending(ps));
        }
        out
    }

    /// The tasks stored here for `partition`, each once, in the order of
    /// the partition's hash table.
    pub fn dump_partition(&self, partition: u32) -> (r: Vec<(TaskId, TaskEntry)>)
        requires
            self.wf(),
        ensures
            lists(
                r@,
                Seq::new(r@.len(), |i: int| partition),
                self.tasks(),
                partition_keys(self.tasks(), partition),
            ),
    {
        table_partition(&self.local_tasks, partition)
    }

    /// Claims an available task for this node (pending, or running with a
    /// lease that has run out, whose worker is presumed dead): it becomes
    /// running, assigned here, with a lease of 30 seconds. Any other task is
    /// left as it is and the claim fails.
    pub fn try_claim_task(&mut self, task_id: &TaskId, now: u64) -> (r: Result<bool, QueueError>)
        requires
            old(self).wf(),
            now <= u64::MAX - LEASE_MS,
        ensures
            ({
                let k = (partition_of(task_id@, old(self).placement().num_partitions), task_id@);
                &&& final(self).wf()
                &&& final(self).placement() == old(self).placement()
                &&& final(self).node() == old(self).node()
                &&& r == Ok::<bool, QueueError>(
                    claimable(old(self).tasks(), old(self).placement().num_partitions, task_id@, now),
                )
                &&& final(self).tasks() == if claimable(
                    old(self).tasks(),
                    old(self).placement().num_partitions,
                    task_id@,
                    now,
                ) {
                    old(self).tasks().insert(k, claimed_entry(old(self).tasks()[k], old(self).node(), now))
                } else {
                    old(self).tasks()
                }
            }),
    {
        let partition = self.partitioner.get_partition(task_id.0.as_str());
        let updated = match table_get(&self.local_tasks, partition, task_id) {
            Some(entry) => {
                let available = match entry.status {
                    TaskStatus::Pending => true,
                    TaskStatus::Running => match entry.lease_expires {
                        Some(lease) => now > lease,
                        None => false,
                    },
                    _ => false,
                };
                if available {
                    let mut e = entry.clone();
                    e.status = TaskStatus::Running;
                    e.assigned_to = Some(self.local_id.clone());
                    e.lease_expires = Some(now + LEASE_MS);
                    Some(e)
                } else {
                    None
                }
            },
            None => None,
        };
        match updated {
            Some(e) => {
                table_insert(&mut self.local_tasks, partition, task_id.clone(), e);
                Ok(true)
            },
            None => Ok(false),
        }
    }

    /// Extends the lease of a running task to 30 seconds from `now`.
    pub fn renew_lease(&mut self, task_id: &TaskId, now: u64) -> (r: Result<(), QueueError>)
        requires
            old(self).wf(),
            now <= u64::MAX - LEASE_MS,
        ensures
            ({
                let k = (partition_of(task_id@, old(self).placement().num_partitions), task_id@);
                let t = old(self).tasks();
                &&& final(self).wf()
                &&& final(self).placement() == old(self).placement()
                &&& final(self).node() == old(self).node()
                &&& if !t.contains_key(k) {
                    &&& r matches Err(QueueError::TaskNotFound)
                    &&& final(self).tasks() == t
                } else if t[k].status is Running {
                    &&& r is Ok
                    &&& final(self).tasks() == t.insert(
                        k,
                        TaskEntry { lease_expires: Some((now + LEASE_MS) as u64), ..t[k] },
                    )
                } else {
                    &&& r matches Err(QueueError::TaskNotRunning { status }) && status == t[k].status
                    &&& final(self).tasks() == t
                }
            }),
    {
        let partition = self.partitioner.get_partition(task_id.0.as_str());
        let outcome = match table_get(&self.local_tasks, partition, task_id) {
            Some(entry) => {
                match entry.status {
                    TaskStatus::Running => {
                        let mut e = entry.clone();
                        e.lease_expires = Some(now + LEASE_MS);
                        Ok(e)
                    },
                    _ => Err(QueueError::TaskNotRunning { status: entry.status.clone() }),
                }
            },
            None => Err(QueueError::TaskNotFound),
        };
        match outcome {
            Ok(e) => {
                table_insert(&mut self.local_tasks, partition, task_id.clone(), e);
                Ok(())
            },
            Err(err) => Err(err),
        }
    }

    /// Records the outcome of a task's handler: completed, or failed with
    /// the error message; the lease is dropped.
    pub fn complete_task(&mut self, task_id: &TaskId, result: Result<(), String>) -> (r: Result<
        (),
        QueueError,
    >)
        requires
            old(self).wf(),
        ensures
            ({
                let k = (partition_of(task_id@, old(self).placement().num_partitions), task_id@);
                let t = old(self).tasks();
                &&& final(self).wf()
                &&& final(self).placement() == old(self).placement()
                &&& final(self).node() == old(self).node()
                &&& if t.contains_key(k) {
                    &&& r is Ok
                    &&& final(self).tasks() == t.insert(k, completed_entry(t[k], result))
                } else {
                    &&& r matches Err(QueueError::TaskNotFound)
                    &&& final(self).tasks() == t
                }
            }),
    {
        let partition = self.partitioner.get_partition(task_id.0.as_str());
        let updated = match table_get(&self.local_tasks, partition, task_id) {
            Some(entry) => {
                let mut e = entry;
                match result {
                    Ok(_) => {
                        e.status = TaskStatus::Completed;
                    },
                    Err(msg) => {
                        e.status = TaskStatus::Failed { error: msg };
                    },
                }
                e.lease_expires = None;
                Some(e)
            },
            None => None,
        };
        match updated {
            Some(e) => {
                table_insert(&mut self.local_tasks, partition, task_id.clone(), e);
                Ok(())
            },
            None => Err(QueueError::TaskNotFound),
        }
    }

    /// A copy of task `task_id`, looked up in its own partition.
    pub fn get_task(&self, task_id: &TaskId) -> (r: Option<TaskEntry>)
        requires
            self.wf(),
        ensures
            ({
                let k = (partition_of(task_id@, self.placement().num_partitions), task_id@);
                r == if self.tasks().contains_key(k) {
                    Some(self.tasks()[k])
                } else {
                    None
                }
            }),
    {
        let partition = self.partitioner.get_partition(task_id.0.as_str());
        table_get(&self.local_tasks, partition, task_id)
    }

    /// A copy of task `task_id` as stored on this node.
    pub fn get_task_local(&self, task_id: &TaskId) -> (r: Option<TaskEntry>)
        requires
            self.wf(),
        ensures
            ({
                let k = (partition_of(task_id@, self.placement().num_partitions), task_id@);
                r == if self.tasks().contains_key(k) {
                    Some(self.tasks()[k])
                } else {
                    None
                }
            }),
    {
        self.get_task(task_id)
    }

    /// Claims the first task of `candidates` that can still be claimed and
    /// hands back its id and work; none if no candidate can be claimed.
    pub fn claim_next(&mut self, candidates: &Vec<(TaskId, TaskEntry)>, now: u64) -> (r: Option<(TaskId, Task)>)
        requires
            old(self).wf(),
            now <= u64::MAX - LEASE_MS,
        ensures
            final(self).wf(),
            final(self).placement() == old(self).placement(),
            final(self).node() == old(self).node(),
            match first_claimable(old(self).tasks(), old(self).placement().num_partitions, candidates@, now) {
                Some(i) => {
                    let id = candidates@[i as int].0;
                    let k = (partition_of(id@, old(self).placement().num_partitions), id@);
                    &&& r == Some((id, candidates@[i as int].1.task))
                    &&& final(self).tasks() == old(self).tasks().insert(
                        k,
                        claimed_entry(old(self).tasks()[k], old(self).node(), now),
                    )
                },
                None => r is None && final(self).tasks() == old(self).tasks(),
            },
    {
        let ghost t0 = self.tasks();
        let ghost np = self.placement().num_partitions;
        let n = candidates.len();
        let mut i: usize = 0;
        proof {
            assert(candidates@.skip(0) =~= candidates@);
        }
        while i < n
            invariant
                self.wf(),
                now <= u64::MAX - LEASE_MS,
                self.tasks() == t0,
                self.placement() == old(self).placement(),
                self.node() == old(self).node(),
                t0 == old(self).tasks(),
                np == self.placement().num_partitions,
                n == candidates@.len(),
                i <= n,
                first_claimable(t0, np, candidates@, now) == match first_claimable(
                    t0,
                    np,
                    candidates@.skip(i as int),
                    now,
                ) {
                    Some(j) => Some((j + i) as nat),
                    None => None::<nat>,
                },
            decreases n - i,
        {
            let c = &candidates[i];
            let claimed = self.try_claim_task(&c.0, now);
            proof {
                assert(candidates@.skip(i as int)[0] == candidates@[i as int]);
                assert(candidates@.skip(i as int).drop_first() =~= candidates@.skip(i + 1));
            }
            match claimed {
                Ok(true) => {
                    let r = (c.0.clone(), c.1.task.clone());
                    proof {
                        assert(first_claimable(t0, np, candidates@, now) == Some(i as nat));
                    }
                    return Some(r);
                },
                _ => {},
            }
            i = i + 1;
        }
        proof {
            assert(candidates@.skip(n as int).len() == 0);
        }
        None
    }
}

} // verus!
