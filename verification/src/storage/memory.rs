//! The local side of a distributed map.
//!
//! A `DistributedMap` keeps, on this node, a table from (partition, key) to
//! value, and decides where reads and writes go: to the local table, to the
//! primary owner of the key's partition, or to its first backup. The
//! network transfers themselves are carried out by the caller, which is
//! handed back exactly what to send and to whom.

use vstd::prelude::*;

use crate::keyed::{KeyedTable, TableKey};
use crate::membership::service::MembershipService;
use crate::membership::types::NodeId;
use crate::storage::partitioner::{
    id_views, owners_of, partition_of, ring_of, PartitionManager,
};

verus! {

/// Keys of a distributed map: string-like keys whose text is their view.
pub trait MapKey: TableKey + View<V = Seq<char>> {
    /// The key as text.
    fn key_str(&self) -> (s: &str)
        ensures
            s@ == self@,
    ;
}

impl MapKey for String {
    fn key_str(&self) -> (s: &str) {
        self.as_str()
    }
}

/// The key of the local table: partition and key.
pub struct StoreKey<K> {
    pub partition: u32,
    pub key: K,
}

impl<K: View> View for StoreKey<K> {
    type V = (u32, K::V);

    open spec fn view(&self) -> (u32, K::V) {
        (self.partition, self.key@)
    }
}

impl<K: TableKey> TableKey for StoreKey<K> {
    fn same_key(&self, other: &Self) -> (b: bool) {
        self.partition == other.partition && self.key.same_key(&other.key)
    }

    fn copy_key(&self) -> (k: Self) {
        StoreKey { partition: self.partition, key: self.key.copy_key() }
    }
}

/// What remains to be done over the network after a write.
pub enum WriteFollowUp<V> {
    /// Nothing: the write is complete.
    Done,
    /// The write belongs to another primary: send it there.
    Forward { primary: NodeId, partition: u32, key: String, value: V },
    /// The write was stored here as primary: copy it to each backup.
    Replicate { backups: Vec<NodeId>, partition: u32, key: String, value: V },
}

/// How to answer a read.
pub enum ReadPlan<V> {
    /// The value is stored here.
    Local(V),
    /// No node can have it.
    Missing,
    /// Ask `first`; if that request fails, ask `on_failure` (when there is
    /// one). A failed last request means the value is missing.
    Remote { first: NodeId, on_failure: Option<NodeId> },
}

/// The owners of a key's partition as the given membership view sees them.
pub open spec fn owners_for(placement: PartitionManager, membership: MembershipService, partition: u32) -> Seq<
    Seq<char>,
> {
    owners_of(
        placement.replication_factor as nat,
        partition,
        ring_of(membership.view_map()),
    )
}

/// The follow-up of a write stored here as primary: replicate to every
/// backup of the partition, when it has any.
pub open spec fn replicate_follow_up<V: Clone>(
    r: WriteFollowUp<V>,
    owners: Seq<Seq<char>>,
    partition: u32,
    key: Seq<char>,
    value: V,
) -> bool {
    if owners.len() > 1 {
        match r {
            WriteFollowUp::Replicate { backups, partition: p, key: k, value: v } => id_views(backups@)
                == owners.skip(1) && p == partition && k@ == key && cloned(value, v),
            _ => false,
        }
    } else {
        r is Done
    }
}

/// What a routed write does: with no live node the value is kept here;
/// when another node is the primary of the key's partition the write is
/// handed back to be forwarded there and nothing is stored here; otherwise
/// it is stored here and handed back to be replicated to every backup.
pub open spec fn put_effect<V: Clone>(
    before: Map<(u32, Seq<char>), V>,
    after: Map<(u32, Seq<char>), V>,
    r: WriteFollowUp<V>,
    placement: PartitionManager,
    membership: MembershipService,
    key: Seq<char>,
    value: V,
) -> bool {
    let p = partition_of(key, placement.num_partitions);
    let owners = owners_for(placement, membership, p);
    if owners.len() == 0 {
        &&& after == before.insert((p, key), value)
        &&& r is Done
    } else if owners[0] != membership.local_id() {
        &&& after == before
        &&& r matches WriteFollowUp::Forward { primary, partition: fp, key: k, value: v } && primary@
            == owners[0] && fp == p && k@ == key && v == value
    } else {
        &&& after == before.insert((p, key), value)
        &&& replicate_follow_up(r, owners, p, key, value)
    }
}

/// What a remote read of a value brought back: the value or its absence,
/// or a failed request.
pub type Fetch<V> = Result<Option<V>, ()>;

/// The next step of a read after a remote request.
#[derive(Debug)]
pub enum FetchStep<V> {
    /// The read is over: this is its answer.
    Found(Option<V>),
    /// The request failed: ask this node instead.
    AskNext(NodeId),
}

/// How a read of `key` is planned: from the copy stored here; else from the
/// primary, falling back on the first backup; a primary that is this node
/// (holding nothing) sends the read to the first backup alone.
pub open spec fn read_planned<V: Clone>(
    r: ReadPlan<V>,
    local: Map<(u32, Seq<char>), V>,
    placement: PartitionManager,
    membership: MembershipService,
    key: Seq<char>,
) -> bool {
    let p = partition_of(key, placement.num_partitions);
    let owners = owners_for(placement, membership, p);
    if local.contains_key((p, key)) {
        r matches ReadPlan::Local(v) && cloned(local[(p, key)], v)
    } else if owners.len() == 0 {
        r is Missing
    } else if owners[0] == membership.local_id() {
        if owners.len() > 1 {
            r matches ReadPlan::Remote { first, on_failure } && first@ == owners[1] && on_failure is None
        } else {
            r is Missing
        }
    } else {
        r matches ReadPlan::Remote { first, on_failure } && first@ == owners[0] && (if owners.len() > 1 {
            on_failure matches Some(b) && b@ == owners[1]
        } else {
            on_failure is None
        })
    }
}

/// What a remote read brought back, as an answer: the value or its absence;
/// nothing when the request failed.
pub open spec fn fetched_value<V>(o: Fetch<V>) -> Option<V> {
    match o {
        Ok(v) => v,
        Err(_) => None,
    }
}

/// The next step of a read after a remote request (see `after_fetch`).
pub open spec fn fetch_step<V>(outcome: Fetch<V>, on_failure: Option<NodeId>) -> FetchStep<V> {
    match outcome {
        Ok(v) => FetchStep::Found(v),
        Err(_) => match on_failure {
            Some(b) => FetchStep::AskNext(b),
            None => FetchStep::Found(None),
        },
    }
}

/// The answer of a read carried out by `plan` when each node `n` answers
/// a remote request with `fetch(n)`: each step is `fetch_step`, and the
/// node asked after a failure has no one after it.
pub open spec fn read_answer<V>(plan: ReadPlan<V>, fetch: spec_fn(Seq<char>) -> Fetch<V>) -> Option<V> {
    match plan {
        ReadPlan::Local(v) => Some(v),
        ReadPlan::Missing => None,
        ReadPlan::Remote { first, on_failure } => match fetch_step(fetch(first@), on_failure) {
            FetchStep::Found(v) => v,
            FetchStep::AskNext(b) => match fetch_step(fetch(b@), None) {
                FetchStep::Found(v) => v,
                FetchStep::AskNext(_) => None,
            },
        },
    }
}

/// Combines the outcome of a remote read with the node to ask when it
/// failed: an answer (a value or its absence) ends the read; a failure
/// moves on to `on_failure`, or ends the read with nothing when there is
/// none.
pub fn after_fetch<V>(outcome: Fetch<V>, on_failure: Option<NodeId>) -> (s: FetchStep<V>)
    ensures
        s == fetch_step(outcome, on_failure),
{
    match outcome {
        Ok(v) => FetchStep::Found(v),
        Err(_) => match on_failure {
            Some(b) => FetchStep::AskNext(b),
            None => FetchStep::Found(None),
        },
    }
}

/// A map whose entries are spread over the cluster by partition.
pub struct DistributedMap<K, V> {
    local_data: KeyedTable<StoreKey<K>, V>,
    partitioner: PartitionManager,
}

impl<K: MapKey, V: Clone> DistributedMap<K, V> {
    pub closed spec fn wf(&self) -> bool {
        self.local_data.wf() && self.partitioner.wf()
    }

    /// The entries stored on this node, by (partition, key).
    pub closed spec fn local_view(&self) -> Map<(u32, Seq<char>), V> {
        self.local_data.map()
    }

    /// The placement this map uses.
    pub closed spec fn placement(&self) -> PartitionManager {
        self.partitioner
    }

    /// An empty map placed by `partitioner`.
    pub fn new(partitioner: PartitionManager) -> (m: Self)
        requires
            partitioner.wf(),
        ensures
            m.wf(),
            m.local_view() == Map::<(u32, Seq<char>), V>::empty(),
            m.placement() == partitioner,
    {
        DistributedMap { local_data: KeyedTable::new(), partitioner }
    }

    /// The placement this map uses.
    pub fn partitioner(&self) -> (p: &PartitionManager)
        requires
            self.wf(),
        ensures
            *p == self.placement(),
            p.wf(),
    {
        &self.partitioner
    }

    /// The partition of `key`.
    pub fn partition_of_key(&self, key: &K) -> (p: u32)
        requires
            self.wf(),
        ensures
            p == partition_of(key@, self.placement().num_partitions),
    {
        self.partitioner.get_partition(key.key_str())
    }

    /// Stores `value` under `key` in `partition` on this node, replacing
    /// what was there.
    pub fn store_local(&mut self, partition: u32, key: K, value: V)
        requires
            old(self).wf(),
        ensures
            final(self).wf(),
            final(self).placement() == old(self).placement(),
            final(self).local_view() == old(self).local_view().insert((partition, key@), value),
    {
        self.local_data.insert(StoreKey { partition, key }, value);
    }

    /// A copy of the value stored on this node under `key`, looked up in
    /// the key's own partition.
    pub fn get_local(&self, key: &K) -> (r: Option<V>)
        requires
            self.wf(),
        ensures
            ({
                let sk = (partition_of(key@, self.placement().num_partitions), key@);
                match r {
                    Some(v) => self.local_view().contains_key(sk) && cloned(self.local_view()[sk], v),
                    None => !self.local_view().contains_key(sk),
                }
            }),
    {
        let partition = self.partition_of_key(key);
        let sk = StoreKey { partition, key: key.copy_key() };
        match self.local_data.get(&sk) {
            Some(v) => Some(v.clone()),
            None => None,
        }
    }

    /// Stores a write here as the primary of `partition`, and says whether
    /// it must be copied to backups (all of them).
    pub fn store_as_primary(&mut self, partition: u32, key: K, value: V, membership: &MembershipService) -> (r:
        WriteFollowUp<V>)
        requires
            old(self).wf(),
            membership.wf(),
        ensures
            final(self).wf(),
            final(self).placement() == old(self).placement(),
            final(self).local_view() == old(self).local_view().insert((partition, key@), value),
            replicate_follow_up(
                r,
                owners_for(old(self).placement(), *membership, partition),
                partition,
                key@,
                value,
            ),
    {
        let key_text = key.key_str().to_owned();
        let copy = value.clone();
        self.store_local(partition, key, value);
        let owners = self.partitioner.get_owners(partition, membership);
        if owners.len() > 1 {
            proof {
                assert(id_views(owners@)[1] == owners@[1]@);
            }
            let backups = PartitionManager::backups_of(&owners);
            WriteFollowUp::Replicate { backups, partition, key: key_text, value: copy }
        } else {
            WriteFollowUp::Done
        }
    }

    /// Stores a write here as primary of the key's own partition, and says
    /// whether it must be copied to backups (all of them).
    pub fn put_local(&mut self, key: K, value: V, membership: &MembershipService) -> (r: WriteFollowUp<V>)
        requires
            old(self).wf(),
            membership.wf(),
        ensures
            ({
                let p = partition_of(key@, old(self).placement().num_partitions);
                &&& final(self).wf()
                &&& final(self).placement() == old(self).placement()
                &&& final(self).local_view() == old(self).local_view().insert((p, key@), value)
                &&& replicate_follow_up(r, owners_for(old(self).placement(), *membership, p), p, key@, value)
            }),
    {
        let partition = self.partition_of_key(&key);
        self.store_as_primary(partition, key, value, membership)
    }

    /// Routes a write. With no live node the value is kept here. When
    /// another node is the primary of the key's partition the write is
    /// handed back to be forwarded there. Otherwise it is stored here and,
    /// when the partition has backups, handed back to be replicated to each.
    pub fn put(&mut self, key: K, value: V, membership: &MembershipService) -> (r: WriteFollowUp<V>)
        requires
            old(self).wf(),
            membership.wf(),
        ensures
            final(self).wf(),
            final(self).placement() == old(self).placement(),
            put_effect(
                old(self).local_view(),
                final(self).local_view(),
                r,
                old(self).placement(),
                *membership,
                key@,
                value,
            ),
    {
        let partition = self.partition_of_key(&key);
        let owners = self.partitioner.get_owners(partition, membership);
        if owners.len() == 0 {
            self.store_local(partition, key, value);
            return WriteFollowUp::Done;
        }
        proof {
            assert(id_views(owners@)[0] == owners@[0]@);
        }
        if !owners[0].same(membership.local_node_id()) {
            let key_text = key.key_str().to_owned();
            return WriteFollowUp::Forward { primary: owners[0].clone(), partition, key: key_text, value };
        }
        self.store_as_primary(partition, key, value, membership)
    }

    /// Decides how to answer a read of `key`. A value stored here is
    /// returned. Otherwise, with no live node the value is missing; when
    /// this node is the primary the first backup is asked (and nothing
    /// else); when another node is the primary it is asked first and, if
    /// that fails, the first backup.
    pub fn plan_get(&self, key: &K, membership: &MembershipService) -> (r: ReadPlan<V>)
        requires
            self.wf(),
            membership.wf(),
        ensures
            read_planned(r, self.local_view(), self.placement(), *membership, key@),
    {
        if let Some(v) = self.get_local(key) {
            return ReadPlan::Local(v);
        }
        let partition = self.partition_of_key(key);
        let owners = self.partitioner.get_owners(partition, membership);
        if owners.len() == 0 {
            return ReadPlan::Missing;
        }
        proof {
            assert(id_views(owners@)[0] == owners@[0]@);
            if owners@.len() > 1 {
                assert(id_views(owners@)[1] == owners@[1]@);
            }
        }
        if owners[0].same(membership.local_node_id()) {
            if owners.len() > 1 {
                return ReadPlan::Remote { first: owners[1].clone(), on_failure: None };
            }
            return ReadPlan::Missing;
        }
        let on_failure = if owners.len() > 1 {
            Some(owners[1].clone())
        } else {
            None
        };
        ReadPlan::Remote { first: owners[0].clone(), on_failure }
    }
}

} // verus!
