//! Partition manager.
//!
//! Maps keys to partitions by hashing and assigns each partition to live
//! nodes. Every node computes the same assignment from the same set of live
//! nodes: the live node ids are put in string order (the ring), the primary
//! of partition `p` is the node at position `p mod n`, and its backups are
//! the nodes that follow it around the ring.

use vstd::prelude::*;

use crate::membership::service::{MemberView, MembershipService};
use crate::membership::types::{Node, NodeId, NodeState};
use crate::storage::laws::lemma_ring_of_listing;
use crate::sys::{hash_str, std_hash};
use crate::text::{lex_lt, str_less};

verus! {

/// Number of partitions of the key space.
pub const DEFAULT_NUM_PARTITIONS: u32 = 256;

/// Replication factor used when none is given.
pub const DEFAULT_REPLICATION_FACTOR: usize = 2;

/// The partition of a key: the low 32 bits of its hash, modulo the number
/// of partitions.
pub open spec fn partition_of(key: Seq<char>, num_partitions: u32) -> u32 {
    ((std_hash(key) as u32) % num_partitions) as u32
}

/// The views of a sequence of node ids.
pub open spec fn id_views(ids: Seq<NodeId>) -> Seq<Seq<char>> {
    ids.map_values(|id: NodeId| id@)
}

/// The ids of the live nodes of a view.
pub open spec fn alive_id_set(m: MemberView) -> Set<Seq<char>> {
    m.dom().filter(|k: Seq<char>| m[k].state == NodeState::Alive)
}

/// Where `x` goes in `s`: before the first element that does not precede it.
pub open spec fn insert_pos(s: Seq<Seq<char>>, x: Seq<char>) -> nat
    decreases s.len(),
{
    if s.len() == 0 {
        0
    } else if !lex_lt(s[0], x) {
        0
    } else {
        1 + insert_pos(s.drop_first(), x)
    }
}

/// The ring: the ids in string order (insertion sort).
pub open spec fn sorted_ids(s: Seq<Seq<char>>) -> Seq<Seq<char>>
    decreases s.len(),
{
    if s.len() == 0 {
        s
    } else {
        let r = sorted_ids(s.drop_last());
        r.insert(insert_pos(r, s.last()) as int, s.last())
    }
}

/// The ring of a view: the ids of its live nodes in string order.
pub open spec fn ring_of(m: MemberView) -> Seq<Seq<char>> {
    sorted_ids(alive_id_set(m).to_seq())
}

/// The owners of a partition on a ring: the node at position
/// `partition mod n` (the primary) and the nodes after it, as many as the
/// replication factor allows and the ring holds.
pub open spec fn owners_of(rf: nat, partition: u32, ring: Seq<Seq<char>>) -> Seq<Seq<char>> {
    let n = ring.len();
    if n == 0 {
        Seq::empty()
    } else {
        let count = if rf < n {
            rf
        } else {
            n
        };
        Seq::new(count, |i: int| ring[((partition as int) % (n as int) + i) % (n as int)])
    }
}

/// Whether `local` is the primary owner of `partition` on `ring`.
pub open spec fn is_primary(rf: nat, partition: u32, ring: Seq<Seq<char>>, local: Seq<char>) -> bool {
    owners_of(rf, partition, ring).len() > 0 && owners_of(rf, partition, ring)[0] == local
}

/// Whether `local` is a backup owner of `partition` on `ring`.
pub open spec fn is_backup(rf: nat, partition: u32, ring: Seq<Seq<char>>, local: Seq<char>) -> bool {
    owners_of(rf, partition, ring).len() > 1 && owners_of(rf, partition, ring).skip(1).contains(local)
}

/// The partitions below `upto` of which `local` is the primary, ascending.
pub open spec fn primary_partitions(rf: nat, ring: Seq<Seq<char>>, local: Seq<char>, upto: nat) -> Seq<u32>
    decreases upto,
{
    if upto == 0 {
        Seq::empty()
    } else {
        let rest = primary_partitions(rf, ring, local, (upto - 1) as nat);
        if is_primary(rf, (upto - 1) as u32, ring, local) {
            rest.push((upto - 1) as u32)
        } else {
            rest
        }
    }
}

/// The partitions below `upto` of which `local` is a backup, ascending.
pub open spec fn backup_partitions(rf: nat, ring: Seq<Seq<char>>, local: Seq<char>, upto: nat) -> Seq<u32>
    decreases upto,
{
    if upto == 0 {
        Seq::empty()
    } else {
        let rest = backup_partitions(rf, ring, local, (upto - 1) as nat);
        if is_backup(rf, (upto - 1) as u32, ring, local) {
            rest.push((upto - 1) as u32)
        } else {
            rest
        }
    }
}

/// The placement of data: number of partitions and replication factor.
#[derive(Clone, Copy, Debug)]
pub struct PartitionManager {
    pub num_partitions: u32,
    pub replication_factor: usize,
}

impl PartitionManager {
    pub open spec fn wf(&self) -> bool {
        self.num_partitions > 0 && self.replication_factor >= 1
    }

    /// 256 partitions, each on two nodes.
    pub fn new() -> (p: Self)
        ensures
            p.wf(),
            p.num_partitions == DEFAULT_NUM_PARTITIONS,
            p.replication_factor == DEFAULT_REPLICATION_FACTOR,
    {
        Self::new_with_replication(DEFAULT_REPLICATION_FACTOR)
    }

    /// 256 partitions, each on `replication_factor` nodes (at least one).
    pub fn new_with_replication(replication_factor: usize) -> (p: Self)
        ensures
            p.wf(),
            p.num_partitions == DEFAULT_NUM_PARTITIONS,
            p.replication_factor == if replication_factor < 1 {
                1
            } else {
                replication_factor
            },
    {
        PartitionManager {
            num_partitions: DEFAULT_NUM_PARTITIONS,
            replication_factor: if replication_factor < 1 {
                1
            } else {
                replication_factor
            },
        }
    }

    /// The partition of `key`.
    pub fn get_partition(&self, key: &str) -> (p: u32)
        requires
            self.wf(),
        ensures
            p == partition_of(key@, self.num_partitions),
            p < self.num_partitions,
    {
        let h = hash_str(key);
        let low = h as u32;
        low % self.num_partitions
    }

    /// The ids of the live members in string order.
    pub fn alive_ring(membership: &MembershipService) -> (ring: Vec<NodeId>)
        requires
            membership.wf(),
        ensures
            id_views(ring@) == ring_of(membership.view_map()),
    {
        let alive = membership.get_alive_members();
        let mut ids: Vec<NodeId> = Vec::new();
        let n = alive.len();
        let mut i: usize = 0;
        while i < n
            invariant
                n == alive@.len(),
                i <= n,
                id_views(ids@) == alive@.take(i as int).map_values(|m: Node| m.id@),
            decreases n - i,
        {
            ids.push(alive[i].id.clone());
            proof {
                assert(alive@.take(i + 1).map_values(|m: Node| m.id@) =~= alive@.take(
                    i as int,
                ).map_values(|m: Node| m.id@).push(alive@[i as int].id@));
                assert(id_views(ids@) =~= alive@.take(i + 1).map_values(|m: Node| m.id@));
            }
            i = i + 1;
        }
        proof {
            assert(alive@.take(n as int) =~= alive@);
            lemma_ring_of_listing(membership.view_map(), alive@);
        }
        sort_ids(ids)
    }

    /// The owners of `partition` on `ring`.
    pub fn owners_on_ring(&self, partition: u32, ring: &Vec<NodeId>) -> (owners: Vec<NodeId>)
        requires
            self.wf(),
        ensures
            id_views(owners@) == owners_of(self.replication_factor as nat, partition, id_views(ring@)),
    {
        let n = ring.len();
        let mut owners: Vec<NodeId> = Vec::new();
        if n == 0 {
            proof {
                assert(id_views(owners@) =~= Seq::<Seq<char>>::empty());
            }
            return owners;
        }
        let primary_idx = (partition as usize) % n;
        let count = if self.replication_factor < n {
            self.replication_factor
        } else {
            n
        };
        let ghost ring_v = id_views(ring@);
        let mut offset: usize = 0;
        while offset < count
            invariant
                n == ring@.len(),
                n > 0,
                count <= n,
                primary_idx == (partition as int) % (n as int),
                ring_v == id_views(ring@),
                offset <= count,
                id_views(owners@) == Seq::new(
                    offset as nat,
                    |i: int| ring_v[((partition as int) % (n as int) + i) % (n as int)],
                ),
            decreases count - offset,
        {
            let idx = if offset < n - primary_idx {
                primary_idx + offset
            } else {
                offset - (n - primary_idx)
            };
            proof {
                let s = primary_idx + offset;
                if offset < n - primary_idx {
                    vstd::arithmetic::div_mod::lemma_small_mod(s as nat, n as nat);
                } else {
                    vstd::arithmetic::div_mod::lemma_mod_sub_multiples_vanish(s as int, n as int);
                    vstd::arithmetic::div_mod::lemma_small_mod((s - n) as nat, n as nat);
                }
                assert(idx == (primary_idx + offset) % (n as int));
            }
            let ghost before = id_views(owners@);
            owners.push(ring[idx].clone());
            proof {
                assert(id_views(owners@) =~= before.push(ring_v[idx as int]));
                assert(id_views(owners@) =~= Seq::new(
                    (offset + 1) as nat,
                    |i: int| ring_v[((partition as int) % (n as int) + i) % (n as int)],
                ));
            }
            offset = offset + 1;
        }
        proof {
            assert(id_views(owners@) =~= owners_of(self.replication_factor as nat, partition, ring_v));
        }
        owners
    }

        /// The backups among a partition's owners: all but the first.
    pub fn backups_of(owners: &Vec<NodeId>) -> (b: Vec<NodeId>)
        requires
            owners@.len() >= 1,
        ensures
            id_views(b@) == id_views(owners@).skip(1),
    {
        let mut b: Vec<NodeId> = Vec::new();
        let n = owners.len();
        let mut i: usize = 1;
        while i < n
            invariant
                n == owners@.len(),
                1 <= i <= n,
                id_views(b@) == id_views(owners@).subrange(1, i as int),
            decreases n - i,
        {
            let ghost before = b@;
            b.push(owners[i].clone());
            proof {
                assert(id_views(b@) =~= id_views(before).push(owners@[i as int]@));
                assert(id_views(owners@).subrange(1, i + 1) =~= id_views(owners@).subrange(1, i as int).push(
                    owners@[i as int]@,
                ));
            }
            i = i + 1;
        }
        proof {
            assert(id_views(owners@).subrange(1, n as int) =~= id_views(owners@).skip(1));
        }
        b
    }

/// The nodes responsible for `partition`: the primary first, then the
    /// backups, all among the live members.
    pub fn get_owners(&self, partition: u32, membership: &MembershipService) -> (owners: Vec<NodeId>)
        requires
            self.wf(),
            membership.wf(),
        ensures
            id_views(owners@) == owners_of(
                self.replication_factor as nat,
                partition,
                ring_of(membership.view_map()),
            ),
    {
        let ring = Self::alive_ring(membership);
        self.owners_on_ring(partition, &ring)
    }

    /// The partitions of which the local node is the primary, ascending.
    pub fn my_primary_partitions(&self, membership: &MembershipService) -> (parts: Vec<u32>)
        requires
            self.wf(),
            membership.wf(),
        ensures
            parts@ == primary_partitions(
                self.replication_factor as nat,
                ring_of(membership.view_map()),
                membership.local_id(),
                self.num_partitions as nat,
            ),
    {
        let ring = Self::alive_ring(membership);
        let ghost ring_v = id_views(ring@);
        let ghost local = membership.local_id();
        let mut parts: Vec<u32> = Vec::new();
        let mut p: u32 = 0;
        while p < self.num_partitions
            invariant
                self.wf(),
                ring_v == id_views(ring@),
                local == membership.local_id(),
                p <= self.num_partitions,
                parts@ == primary_partitions(self.replication_factor as nat, ring_v, local, p as nat),
            decreases self.num_partitions - p,
        {
            let owners = self.owners_on_ring(p, &ring);
            let mine = owners.len() > 0 && owners[0].same(membership.local_node_id());
            proof {
                if owners@.len() > 0 {
                    assert(id_views(owners@)[0] == owners@[0]@);
                }
            }
            if mine {
                parts.push(p);
            }
            p = p + 1;
        }
        parts
    }

    /// The partitions of which the local node is a backup, ascending.
    pub fn my_backup_partitions(&self, membership: &MembershipService) -> (parts: Vec<u32>)
        requires
            self.wf(),
            membership.wf(),
        ensures
            parts@ == backup_partitions(
                self.replication_factor as nat,
                ring_of(membership.view_map()),
                membership.local_id(),
                self.num_partitions as nat,
            ),
    {
        let ring = Self::alive_ring(membership);
        let ghost ring_v = id_views(ring@);
        let ghost local = membership.local_id();
        let mut parts: Vec<u32> = Vec::new();
        let mut p: u32 = 0;
        while p < self.num_partitions
            invariant
                self.wf(),
                ring_v == id_views(ring@),
                local == membership.local_id(),
                p <= self.num_partitions,
                parts@ == backup_partitions(self.replication_factor as nat, ring_v, local, p as nat),
            decreases self.num_partitions - p,
        {
            let owners = self.owners_on_ring(p, &ring);
            let ghost ov = id_views(owners@);
            let mut found = false;
            let mut j: usize = 1;
            while j < owners.len()
                invariant
                    ov == id_views(owners@),
                    1 <= j <= owners@.len() || (owners@.len() == 0 && j == 1),
                    found == exists|k: int| 1 <= k < j && #[trigger] ov[k] == local,
                    local == membership.local_id(),
                decreases owners@.len() - j,
            {
                let hit = owners[j].same(membership.local_node_id());
                proof {
                    assert(ov[j as int] == owners@[j as int]@);
                    if hit {
                        assert(ov[j as int] == local);
                    } else if !found {
                        assert(ov[j as int] != local);
                        assert forall|k: int| 1 <= k < j + 1 implies #[trigger] ov[k] != local by {
                            if k < j {
                                if ov[k] == local {
                                    assert(exists|k2: int| 1 <= k2 < j && #[trigger] ov[k2] == local);
                                }
                            }
                        }
                    }
                }
                if hit {
                    found = true;
                }
                j = j + 1;
            }
            proof {
                if ov.len() > 1 {
                    if found {
                        let k = choose|k: int| 1 <= k < j && #[trigger] ov[k] == local;
                        assert(ov.skip(1)[k - 1] == local);
                    }
                    if ov.skip(1).contains(local) {
                        let k = choose|k: int| 0 <= k < ov.skip(1).len() && ov.skip(1)[k] == local;
                        assert(ov[k + 1] == local);
                    }
                }
            }
            if found {
                parts.push(p);
            }
            p = p + 1;
        }
        parts
    }
}

/// Puts node ids in string order (insertion sort).
pub fn sort_ids(ids: Vec<NodeId>) -> (sorted: Vec<NodeId>)
    ensures
        id_views(sorted@) == sorted_ids(id_views(ids@)),
{
    let ghost iv = id_views(ids@);
    let mut sorted: Vec<NodeId> = Vec::new();
    let n = ids.len();
    let mut i: usize = 0;
    while i < n
        invariant
            n == ids@.len(),
            iv == id_views(ids@),
            i <= n,
            id_views(sorted@) == sorted_ids(iv.take(i as int)),
        decreases n - i,
    {
        let x = ids[i].clone();
        let ghost sv = id_views(sorted@);
        let mut j: usize = 0;
        proof {
            assert(sv.skip(0) =~= sv);
        }
        while j < sorted.len() && str_less(sorted[j].0.as_str(), x.0.as_str())
            invariant
                sv == id_views(sorted@),
                j <= sorted@.len(),
                insert_pos(sv, x@) == j + insert_pos(sv.skip(j as int), x@),
            decreases sorted@.len() - j,
        {
            proof {
                assert(sv.skip(j as int)[0] == sv[j as int]);
                assert(sv.skip(j as int).drop_first() =~= sv.skip(j + 1));
            }
            j = j + 1;
        }
        proof {
            if j < sorted@.len() {
                assert(sv.skip(j as int)[0] == sv[j as int]);
            } else {
                assert(sv.skip(j as int).len() == 0);
            }
            assert(insert_pos(sv, x@) == j);
        }
        sorted.insert(j, x);
        proof {
            assert(iv.take(i + 1).drop_last() =~= iv.take(i as int));
            assert(iv.take(i + 1).last() == x@);
            assert(id_views(sorted@) =~= sv.insert(j as int, x@));
        }
        i = i + 1;
    }
    proof {
        assert(iv.take(n as int) =~= iv);
    }
    sorted
}

} // verus!
