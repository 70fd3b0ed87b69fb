//! The member table of a node: a `dashmap::DashMap` from node id to what
//! is known of the node, as the gossip loops and the storage layer share it.

use vstd::prelude::*;

use crate::membership::types::{Node, NodeId};

verus! {

/// Known nodes by id.
pub type MemberTable = dashmap::DashMap<NodeId, Node>;

/// The view of the cluster: node id to node.
pub type MemberView = Map<Seq<char>, Node>;

/// What a member table holds, by the text of the node id. The library
/// changes a table only through the wrappers below, which take it by
/// `&mut` although `DashMap` would accept `&`.
pub uninterp spec fn member_table(t: MemberTable) -> Map<Seq<char>, Node>;

/// `r` lists the entries of `m`, each exactly once, in some order.
pub open spec fn lists_entries(r: Seq<(NodeId, Node)>, m: MemberView) -> bool {
    &&& forall|i: int| #![trigger r[i]] 0 <= i < r.len() ==> m.contains_key(r[i].0@) && m[r[i].0@] == r[i].1
    &&& forall|i: int, j: int| #![trigger r[i], r[j]] 0 <= i < j < r.len() ==> r[i].0@ != r[j].0@
    &&& forall|k: Seq<char>| #[trigger] m.contains_key(k) ==> exists|i: int| #![trigger r[i]] 0 <= i < r.len() && r[i].0@ == k
}

/// An empty table (`DashMap::new`).
#[verifier::external_body]
pub(crate) fn table_new() -> (t: MemberTable)
    ensures
        member_table(t) == MemberView::empty(),
{
    dashmap::DashMap::new()
}

/// Stores `node` under `id`, replacing what was there (`DashMap::insert`).
#[verifier::external_body]
pub(crate) fn table_insert(t: &mut MemberTable, id: NodeId, node: Node)
    ensures
        member_table(*final(t)) == member_table(*old(t)).insert(id@, node),
{
    t.insert(id, node);
}

/// A copy of the node stored under `id` (`DashMap::get`, then
/// `Node::clone`, which copies exactly).
#[verifier::external_body]
pub(crate) fn table_get(t: &MemberTable, id: &NodeId) -> (r: Option<Node>)
    ensures
        r == (if member_table(*t).contains_key(id@) {
            Some(member_table(*t)[id@])
        } else {
            None
        }),
{
    match t.get(id) {
        Some(e) => Some(e.value().clone()),
        None => None,
    }
}

/// The number of entries (`DashMap::len`); ids with the same text are the
/// same key, so this is the number of ids in the view.
#[verifier::external_body]
pub(crate) fn table_len(t: &MemberTable) -> (r: usize)
    ensures
        r == member_table(*t).len(),
{
    t.len()
}

/// Copies of all entries, in the map's iteration order (`DashMap::iter`):
/// each entry once, nothing else. The order is not stated: it is the order
/// of the hash table.
#[verifier::external_body]
pub(crate) fn table_entries(t: &MemberTable) -> (r: Vec<(NodeId, Node)>)
    ensures
        lists_entries(r@, member_table(*t)),
{
    t.iter().map(|e| (e.key().clone(), e.value().clone())).collect()
}

} // verus!
