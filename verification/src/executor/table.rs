//! The task table of a node: a `dashmap::DashMap` from partition to a
//! `DashMap` from task id to entry, as the node's workers and endpoints
//! share it.

use vstd::prelude::*;

use crate::executor::types::{TaskEntry, TaskId};

verus! {

/// Tasks by partition, then by id.
pub type TaskTable = dashmap::DashMap<u32, dashmap::DashMap<TaskId, TaskEntry>>;

/// Tasks by (partition, task id).
pub type TaskView = Map<(u32, Seq<char>), TaskEntry>;

/// What a task table holds, by partition and the text of the task id. The
/// library changes a table only through the wrappers below, which take it
/// by `&mut` although `DashMap` would accept `&`.
pub uninterp spec fn task_table(t: TaskTable) -> Map<(u32, Seq<char>), TaskEntry>;

/// The keys of partition `p`.
pub open spec fn partition_keys(t: TaskView, p: u32) -> Set<(u32, Seq<char>)> {
    Set::new(|k: (u32, Seq<char>)| t.contains_key(k) && k.0 == p)
}

/// `r` lists the entries of `t` under `keys`, each exactly once, in some
/// order; `ps[i]` is the partition of the `i`-th.
pub open spec fn lists(r: Seq<(TaskId, TaskEntry)>, ps: Seq<u32>, t: TaskView, keys: Set<(u32, Seq<char>)>) -> bool {
    &&& ps.len() == r.len()
    &&& forall|i: int|
        #![trigger r[i]]
        0 <= i < r.len() ==> keys.contains((ps[i], r[i].0@)) && t.contains_key((ps[i], r[i].0@)) && t[(
        ps[i],
        r[i].0@,
    )] == r[i].1
    &&& forall|i: int, j: int|
        #![trigger r[i], r[j]]
        0 <= i < j < r.len() ==> (ps[i], r[i].0@) != (ps[j], r[j].0@)
    &&& forall|k: (u32, Seq<char>)|
        #[trigger] keys.contains(k) ==> exists|i: int| #![trigger r[i]] 0 <= i < r.len() && (ps[i], r[i].0@) == k
}

/// An empty table (`DashMap::new`).
#[verifier::external_body]
pub(crate) fn table_new() -> (t: TaskTable)
    ensures
        task_table(t) == TaskView::empty(),
{
    dashmap::DashMap::new()
}

/// Stores `e` as task `id` of partition `p`, replacing what was there
/// (`entry(p).or_default()`, then `DashMap::insert`).
#[verifier::external_body]
pub(crate) fn table_insert(t: &mut TaskTable, p: u32, id: TaskId, e: TaskEntry)
    ensures
        task_table(*final(t)) == task_table(*old(t)).insert((p, id@), e),
{
    t.entry(p).or_default().insert(id, e);
}

/// A copy of task `id` of partition `p` (`DashMap::get` on both maps, then
/// `TaskEntry::clone`, which copies exactly).
#[verifier::external_body]
pub(crate) fn table_get(t: &TaskTable, p: u32, id: &TaskId) -> (r: Option<TaskEntry>)
    ensures
        r == (if task_table(*t).contains_key((p, id@)) {
            Some(task_table(*t)[(p, id@)])
        } else {
            None
        }),
{
    match t.get(&p) {
        Some(pm) => match pm.get(id) {
            Some(e) => Some(e.value().clone()),
            None => None,
        },
        None => None,
    }
}

/// Copies of the tasks of partition `p`, in the map's iteration order
/// (`DashMap::iter`): each task of the partition once, nothing else. The
/// order is not stated: it is the order of the hash table.
#[verifier::external_body]
pub(crate) fn table_partition(t: &TaskTable, p: u32) -> (r: Vec<(TaskId, TaskEntry)>)
    ensures
        lists(r@, Seq::new(r@.len(), |i: int| p), task_table(*t), partition_keys(task_table(*t), p)),
{
    match t.get(&p) {
        Some(pm) => pm.iter().map(|e| (e.key().clone(), e.value().clone())).collect(),
        None => Vec::new(),
    }
}

} // verus!
