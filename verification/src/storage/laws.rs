//! Laws of partition placement and of the local store.

use vstd::prelude::*;

use crate::membership::service::{is_alive, kept_keys, lists_nodes, MemberView, MembershipService};
use crate::membership::types::Node;
use crate::storage::memory::{
    fetched_value, owners_for, put_effect, read_answer, read_planned, Fetch, ReadPlan, WriteFollowUp,
};
use crate::storage::partitioner::{
    alive_id_set, backup_partitions, id_views, insert_pos, is_backup, is_primary, owners_of, partition_of,
    primary_partitions, ring_of, sorted_ids, PartitionManager,
};
use crate::text::{
    lemma_lex_asymmetric, lemma_lex_irreflexive, lemma_lex_total, lemma_lex_transitive, lex_lt,
};

verus! {

/// Every element precedes every later one.
pub open spec fn strictly_sorted(s: Seq<Seq<char>>) -> bool {
    forall|i: int, j: int| 0 <= i < j < s.len() ==> lex_lt(#[trigger] s[i], #[trigger] s[j])
}

/// Two sequences hold the same elements.
pub open spec fn same_elements(a: Seq<Seq<char>>, b: Seq<Seq<char>>) -> bool {
    forall|e: Seq<char>| a.contains(e) <==> b.contains(e)
}

proof fn lemma_insert_pos(s: Seq<Seq<char>>, x: Seq<char>)
    ensures
        insert_pos(s, x) <= s.len(),
        forall|k: int| 0 <= k < insert_pos(s, x) ==> lex_lt(#[trigger] s[k], x),
        insert_pos(s, x) < s.len() ==> !lex_lt(s[insert_pos(s, x) as int], x),
    decreases s.len(),
{
    if s.len() > 0 && lex_lt(s[0], x) {
        lemma_insert_pos(s.drop_first(), x);
        assert forall|k: int| 0 <= k < insert_pos(s, x) implies lex_lt(#[trigger] s[k], x) by {
            if k > 0 {
                assert(s[k] == s.drop_first()[k - 1]);
            }
        }
        if insert_pos(s, x) < s.len() {
            assert(s[insert_pos(s, x) as int] == s.drop_first()[insert_pos(s.drop_first(), x) as int]);
        }
    }
}

proof fn lemma_insert_contains(r: Seq<Seq<char>>, pos: int, x: Seq<char>)
    requires
        0 <= pos <= r.len(),
    ensures
        forall|e: Seq<char>| r.insert(pos, x).contains(e) <==> (r.contains(e) || e == x),
{
    let t = r.insert(pos, x);
    assert forall|e: Seq<char>| t.contains(e) <==> (r.contains(e) || e == x) by {
        if t.contains(e) {
            let k = choose|k: int| 0 <= k < t.len() && t[k] == e;
            if k < pos {
                assert(r[k] == e);
            } else if k > pos {
                assert(r[k - 1] == e);
            }
        }
        if r.contains(e) {
            let k = choose|k: int| 0 <= k < r.len() && r[k] == e;
            if k < pos {
                assert(t[k] == e);
            } else {
                assert(t[k + 1] == e);
            }
        }
        if e == x {
            assert(t[pos] == e);
        }
    }
}

/// The ring holds exactly the ids it was made from, as many of them, and
/// distinct ids stay distinct.
pub proof fn law_ring_is_permutation(s: Seq<Seq<char>>)
    ensures
        sorted_ids(s).len() == s.len(),
        same_elements(sorted_ids(s), s),
        s.no_duplicates() ==> sorted_ids(s).no_duplicates(),
    decreases s.len(),
{
    if s.len() > 0 {
        let init = s.drop_last();
        let x = s.last();
        law_ring_is_permutation(init);
        let r = sorted_ids(init);
        lemma_insert_pos(r, x);
        let pos = insert_pos(r, x) as int;
        lemma_insert_contains(r, pos, x);
        assert forall|e: Seq<char>| sorted_ids(s).contains(e) <==> s.contains(e) by {
            if s.contains(e) {
                let k = choose|k: int| 0 <= k < s.len() && s[k] == e;
                if k < s.len() - 1 {
                    assert(init[k] == e);
                }
            }
            if init.contains(e) {
                let k = choose|k: int| 0 <= k < init.len() && init[k] == e;
                assert(s[k] == e);
            }
        }
        if s.no_duplicates() {
            assert(init.no_duplicates()) by {
                assert forall|i: int, j: int| 0 <= i < init.len() && 0 <= j < init.len() && i != j implies init[i]
                    != init[j] by {
                    assert(s[i] == init[i] && s[j] == init[j]);
                }
            }
            assert(!r.contains(x)) by {
                if r.contains(x) {
                    let k = choose|k: int| 0 <= k < init.len() && init[k] == x;
                    assert(s[k] == s[s.len() - 1]);
                }
            }
            let t = r.insert(pos, x);
            assert forall|i: int, j: int| 0 <= i < t.len() && 0 <= j < t.len() && i != j implies t[i]
                != t[j] by {
                if i != pos && j != pos {
                    let ri = if i < pos {
                        i
                    } else {
                        i - 1
                    };
                    let rj = if j < pos {
                        j
                    } else {
                        j - 1
                    };
                    assert(t[i] == r[ri] && t[j] == r[rj]);
                } else if i == pos {
                    let rj = if j < pos {
                        j
                    } else {
                        j - 1
                    };
                    assert(t[j] == r[rj]);
                } else {
                    let ri = if i < pos {
                        i
                    } else {
                        i - 1
                    };
                    assert(t[i] == r[ri]);
                }
            }
        }
    }
}

/// Distinct ids come out of the ring in strictly increasing string order.
pub proof fn law_ring_is_sorted(s: Seq<Seq<char>>)
    requires
        s.no_duplicates(),
    ensures
        strictly_sorted(sorted_ids(s)),
    decreases s.len(),
{
    if s.len() > 0 {
        let init = s.drop_last();
        let x = s.last();
        assert(init.no_duplicates()) by {
            assert forall|i: int, j: int| 0 <= i < init.len() && 0 <= j < init.len() && i != j implies init[i]
                != init[j] by {
                assert(s[i] == init[i] && s[j] == init[j]);
            }
        }
        law_ring_is_sorted(init);
        law_ring_is_permutation(init);
        let r = sorted_ids(init);
        assert(!r.contains(x)) by {
            if r.contains(x) {
                let k = choose|k: int| 0 <= k < init.len() && init[k] == x;
                assert(s[k] == s[s.len() - 1]);
            }
        }
        lemma_insert_pos(r, x);
        let pos = insert_pos(r, x) as int;
        let t = r.insert(pos, x);
        // x precedes every element from `pos` on.
        assert forall|k: int| pos <= k < r.len() implies lex_lt(x, #[trigger] r[k]) by {
            assert(r[pos] != x) by {
                if r[pos] == x {
                    assert(r.contains(x));
                }
            }
            lemma_lex_total(r[pos], x);
            if k > pos {
                lemma_lex_transitive(x, r[pos], r[k]);
            }
        }
        assert forall|i: int, j: int| 0 <= i < j < t.len() implies lex_lt(#[trigger] t[i], #[trigger] t[j]) by {
            if j < pos {
                assert(t[i] == r[i] && t[j] == r[j]);
            } else if j == pos {
                assert(t[i] == r[i]);
            } else if i < pos {
                assert(t[i] == r[i] && t[j] == r[j - 1]);
                lemma_lex_transitive(r[i], x, r[j - 1]);
            } else if i == pos {
                assert(t[j] == r[j - 1]);
            } else {
                assert(t[i] == r[i - 1] && t[j] == r[j - 1]);
            }
        }
    }
}

/// Two strictly sorted sequences with the same elements are equal.
pub proof fn lemma_sorted_unique(x: Seq<Seq<char>>, y: Seq<Seq<char>>)
    requires
        strictly_sorted(x),
        strictly_sorted(y),
        same_elements(x, y),
    ensures
        x == y,
    decreases x.len(),
{
    if x.len() == 0 {
        if y.len() > 0 {
            assert(y.contains(y[0]));
        }
        assert(x =~= y);
    } else {
        assert(x.contains(x[0]));
        let j = choose|j: int| 0 <= j < y.len() && y[j] == x[0];
        assert(y.contains(y[0]));
        let i = choose|i: int| 0 <= i < x.len() && x[i] == y[0];
        if j > 0 {
            if i > 0 {
                assert(lex_lt(x[0], x[i]));
                assert(lex_lt(y[0], y[j]));
                lemma_lex_asymmetric(x[0], y[0]);
            } else {
                assert(lex_lt(y[0], y[j]));
                lemma_lex_irreflexive(y[0]);
            }
        }
        assert(x[0] == y[0]);
        let xs = x.drop_first();
        let ys = y.drop_first();
        assert forall|e: Seq<char>| xs.contains(e) <==> ys.contains(e) by {
            if xs.contains(e) {
                let k = choose|k: int| 0 <= k < xs.len() && xs[k] == e;
                assert(x[k + 1] == e);
                assert(lex_lt(x[0], e));
                lemma_lex_irreflexive(e);
                assert(y.contains(e));
                let m = choose|m: int| 0 <= m < y.len() && y[m] == e;
                assert(m != 0);
                assert(ys[m - 1] == e);
            }
            if ys.contains(e) {
                let k = choose|k: int| 0 <= k < ys.len() && ys[k] == e;
                assert(y[k + 1] == e);
                assert(lex_lt(y[0], e));
                lemma_lex_irreflexive(e);
                assert(x.contains(e));
                let m = choose|m: int| 0 <= m < x.len() && x[m] == e;
                assert(m != 0);
                assert(xs[m - 1] == e);
            }
        }
        assert(strictly_sorted(xs)) by {
            assert forall|a: int, b: int| 0 <= a < b < xs.len() implies lex_lt(#[trigger] xs[a], #[trigger] xs[b]) by {
                assert(xs[a] == x[a + 1] && xs[b] == x[b + 1]);
            }
        }
        assert(strictly_sorted(ys)) by {
            assert forall|a: int, b: int| 0 <= a < b < ys.len() implies lex_lt(#[trigger] ys[a], #[trigger] ys[b]) by {
                assert(ys[a] == y[a + 1] && ys[b] == y[b + 1]);
            }
        }
        lemma_sorted_unique(xs, ys);
        assert(x =~= seq![x[0]] + xs);
        assert(y =~= seq![y[0]] + ys);
    }
}

/// The ring depends only on which nodes are alive, not on the order in
/// which a node happens to have learned of them.
pub proof fn law_ring_order_independent(a: Seq<Seq<char>>, b: Seq<Seq<char>>)
    requires
        a.no_duplicates(),
        b.no_duplicates(),
        same_elements(a, b),
    ensures
        sorted_ids(a) == sorted_ids(b),
{
    law_ring_is_sorted(a);
    law_ring_is_sorted(b);
    law_ring_is_permutation(a);
    law_ring_is_permutation(b);
    lemma_sorted_unique(sorted_ids(a), sorted_ids(b));
}

/// Every node that sees the same live nodes computes the same owners for
/// every partition.
pub proof fn law_placement_agrees(rf: nat, partition: u32, a: Seq<Seq<char>>, b: Seq<Seq<char>>)
    requires
        a.no_duplicates(),
        b.no_duplicates(),
        same_elements(a, b),
    ensures
        owners_of(rf, partition, sorted_ids(a)) == owners_of(rf, partition, sorted_ids(b)),
{
    law_ring_order_independent(a, b);
}

proof fn lemma_ring_index(p: int, n: int, i: int)
    requires
        0 <= p,
        0 <= i < n,
    ensures
        0 <= (p % n + i) % n < n,
        (p % n + i) % n == if p % n + i < n {
            p % n + i
        } else {
            p % n + i - n
        },
{
    let s = p % n + i;
    if s < n {
        vstd::arithmetic::div_mod::lemma_small_mod(s as nat, n as nat);
    } else {
        vstd::arithmetic::div_mod::lemma_mod_sub_multiples_vanish(s, n);
        vstd::arithmetic::div_mod::lemma_small_mod((s - n) as nat, n as nat);
    }
}

/// A partition has as many owners as the replication factor asks for, or
/// as there are live nodes if fewer; the owners are distinct live nodes;
/// the primary is the ring's node at position `partition mod n`.
pub proof fn law_owners_shape(rf: nat, partition: u32, a: Seq<Seq<char>>)
    requires
        rf >= 1,
        a.no_duplicates(),
    ensures
        owners_of(rf, partition, sorted_ids(a)).len() == (if rf < a.len() {
            rf
        } else {
            a.len()
        }),
        owners_of(rf, partition, sorted_ids(a)).no_duplicates(),
        forall|e: Seq<char>| #[trigger] owners_of(rf, partition, sorted_ids(a)).contains(e) ==> a.contains(e),
        a.len() > 0 ==> owners_of(rf, partition, sorted_ids(a))[0] == sorted_ids(a)[(partition as int)
            % (a.len() as int)],
{
    law_ring_is_permutation(a);
    let ring = sorted_ids(a);
    let n = ring.len() as int;
    let o = owners_of(rf, partition, ring);
    if n > 0 {
        let p = partition as int;
        assert forall|i: int, j: int| 0 <= i < o.len() && 0 <= j < o.len() && i != j implies o[i] != o[j] by {
            lemma_ring_index(p, n, i);
            lemma_ring_index(p, n, j);
            assert(0 <= p % n < n) by {
                vstd::arithmetic::div_mod::lemma_mod_bound(p, n);
            }
            assert((p % n + i) % n != (p % n + j) % n);
        }
        assert forall|e: Seq<char>| #[trigger] o.contains(e) implies a.contains(e) by {
            let k = choose|k: int| 0 <= k < o.len() && o[k] == e;
            lemma_ring_index(p, n, k);
            assert(ring.contains(o[k]));
        }
        lemma_ring_index(p, n, 0);
        assert(0 <= p % n < n) by {
            vstd::arithmetic::div_mod::lemma_mod_bound(p, n);
        }
        vstd::arithmetic::div_mod::lemma_small_mod((p % n) as nat, n as nat);
    }
}

/// On a cluster of one live node, that node is the primary of every
/// partition.
pub proof fn law_single_node_owns_everything(rf: nat, local: Seq<char>, upto: nat)
    requires
        rf >= 1,
        upto <= u32::MAX + 1,
    ensures
        sorted_ids(seq![local]) == seq![local],
        primary_partitions(rf, seq![local], local, upto) == Seq::new(upto, |i: int| i as u32),
    decreases upto,
{
    let s = seq![local];
    assert(s.drop_last() =~= Seq::<Seq<char>>::empty());
    assert(sorted_ids(s.drop_last()) == Seq::<Seq<char>>::empty());
    assert(sorted_ids(s) =~= s);
    if upto > 0 {
        law_single_node_owns_everything(rf, local, (upto - 1) as nat);
        let p = (upto - 1) as u32;
        assert((p as int) % 1 == 0);
        assert(owners_of(rf, p, s)[0] == local);
        assert(is_primary(rf, p, s, local));
        assert(primary_partitions(rf, s, local, upto) =~= Seq::new(upto, |i: int| i as u32));
    }
}

/// A value stored on this node under its key's own partition is what a
/// local read of that key finds; reads of other keys find what they found
/// before.
pub proof fn law_read_your_write<V>(
    view: Map<(u32, Seq<char>), V>,
    num_partitions: u32,
    key: Seq<char>,
    value: V,
    other: Seq<char>,
)
    ensures
        ({
            let k = (partition_of(key, num_partitions), key);
            let after = view.insert(k, value);
            let ko = (partition_of(other, num_partitions), other);
            &&& after.contains_key(k)
            &&& after[k] == value
            &&& other != key ==> (after.contains_key(ko) == view.contains_key(ko) && (view.contains_key(
                ko,
            ) ==> after[ko] == view[ko]))
        }),
{
}

/// A finite set converted to a sequence holds each element once, and
/// exactly the set's elements.
proof fn lemma_to_seq_distinct<A>(s: Set<A>)
    requires
        s.finite(),
    ensures
        s.to_seq().no_duplicates(),
        forall|x: A| s.to_seq().contains(x) <==> s.contains(x),
    decreases s.len(),
{
    s.lemma_to_seq_to_set_id();
    assert forall|x: A| s.to_seq().contains(x) <==> s.contains(x) by {
        assert(s.to_seq().to_set().contains(x) == s.to_seq().contains(x));
    }
    if s.len() > 0 {
        let x = s.choose();
        let rest = s.remove(x);
        lemma_to_seq_distinct(rest);
        let t = Seq::<A>::empty().push(x) + rest.to_seq();
        assert(s.to_seq() == t);
        assert forall|i: int, j: int| 0 <= i < t.len() && 0 <= j < t.len() && i != j implies t[i] != t[j] by {
            if i == 0 {
                assert(t[j] == rest.to_seq()[j - 1]);
                assert(rest.to_seq().contains(t[j]));
            } else if j == 0 {
                assert(t[i] == rest.to_seq()[i - 1]);
                assert(rest.to_seq().contains(t[i]));
            } else {
                assert(t[i] == rest.to_seq()[i - 1]);
                assert(t[j] == rest.to_seq()[j - 1]);
            }
        }
    }
}

/// The ring computed from any listing of a view's live nodes is the ring of
/// the view: it does not depend on the order of the member table.
pub proof fn lemma_ring_of_listing(m: MemberView, alive: Seq<Node>)
    requires
        m.dom().finite(),
        lists_nodes(alive, m, |n: Node| is_alive(n)),
    ensures
        sorted_ids(alive.map_values(|n: Node| n.id@)) == ring_of(m),
{
    let a = alive.map_values(|n: Node| n.id@);
    let set = alive_id_set(m);
    assert(set.finite()) by {
        assert(set == m.dom().intersect(Set::new(|k: Seq<char>| m[k].state == crate::membership::types::NodeState::Alive)));
    }
    lemma_to_seq_distinct(set);
    let b = set.to_seq();
    assert(a.no_duplicates()) by {
        assert forall|i: int, j: int| 0 <= i < a.len() && 0 <= j < a.len() && i != j implies a[i] != a[j] by {
            if i < j {
                assert(alive[i].id@ != alive[j].id@);
            } else {
                assert(alive[j].id@ != alive[i].id@);
            }
        }
    }
    assert forall|e: Seq<char>| a.contains(e) <==> b.contains(e) by {
        if a.contains(e) {
            let i = choose|i: int| 0 <= i < a.len() && a[i] == e;
            assert(alive[i] == alive[i]);
            assert(set.contains(e));
        }
        if set.contains(e) {
            assert(kept_keys(m, |n: Node| is_alive(n)).contains(e));
            let i = choose|i: int| #![trigger alive[i]] 0 <= i < alive.len() && alive[i].id@ == e;
            assert(a[i] == e);
        }
    }
    law_ring_order_independent(a, b);
}

/// Two nodes whose views hold the same live nodes (in whatever order their
/// member tables list them) assign every partition to the same owners.
pub proof fn law_nodes_agree_on_owners(
    placement: PartitionManager,
    m1: MembershipService,
    m2: MembershipService,
    partition: u32,
)
    requires
        alive_id_set(m1.view_map()) == alive_id_set(m2.view_map()),
    ensures
        owners_for(placement, m1, partition) == owners_for(placement, m2, partition),
{
}

/// A read is answered by the copy stored here when there is one. Otherwise
/// it falls back on the first backup exactly when the primary cannot
/// answer: with no live node nothing is found; when this node is the
/// primary, the first backup alone is asked; else the primary's answer (a
/// value or its absence) stands, and only a failed request to it moves the
/// read to the first backup, whose failure means nothing is found. `fetch`
/// stands for what each node answers.
pub proof fn law_read_falls_back<V: Clone>(
    plan: ReadPlan<V>,
    local: Map<(u32, Seq<char>), V>,
    placement: PartitionManager,
    membership: MembershipService,
    key: Seq<char>,
    fetch: spec_fn(Seq<char>) -> Fetch<V>,
)
    requires
        read_planned(plan, local, placement, membership, key),
    ensures
        ({
            let p = partition_of(key, placement.num_partitions);
            let owners = owners_for(placement, membership, p);
            let backup = if owners.len() > 1 {
                fetched_value(fetch(owners[1]))
            } else {
                None
            };
            if local.contains_key((p, key)) {
                read_answer(plan, fetch) matches Some(v) && cloned(local[(p, key)], v)
            } else if owners.len() == 0 {
                read_answer(plan, fetch) is None
            } else if owners[0] == membership.local_id() {
                read_answer(plan, fetch) == backup
            } else {
                read_answer(plan, fetch) == match fetch(owners[0]) {
                    Ok(v) => v,
                    Err(_) => backup,
                }
            }
        }),
{
}

/// A node is listed as a backup of a partition below `upto` exactly when it
/// is one of that partition's owners after the primary, whichever one (the
/// first backup, the second, ...).
pub proof fn law_backup_partitions_exact(rf: nat, ring: Seq<Seq<char>>, local: Seq<char>, upto: nat, p: u32)
    requires
        upto <= 0x1_0000_0000,
    ensures
        backup_partitions(rf, ring, local, upto).contains(p) <==> (p < upto && exists|k: int|
            1 <= k < owners_of(rf, p, ring).len() && #[trigger] owners_of(rf, p, ring)[k] == local),
    decreases upto,
{
    let o = owners_of(rf, p, ring);
    if upto > 0 {
        law_backup_partitions_exact(rf, ring, local, (upto - 1) as nat, p);
        let q = (upto - 1) as u32;
        let rest = backup_partitions(rf, ring, local, (upto - 1) as nat);
        let r = backup_partitions(rf, ring, local, upto);
        if is_backup(rf, q, ring, local) {
            assert(r == rest.push(q));
            assert(r[rest.len() as int] == q);
            if rest.contains(p) {
                let i = choose|i: int| 0 <= i < rest.len() && rest[i] == p;
                assert(r[i] == p);
            }
            if r.contains(p) && p != q {
                let i = choose|i: int| 0 <= i < r.len() && r[i] == p;
                assert(rest[i] == p);
            }
        } else {
            assert(r == rest);
        }
        if p == q {
            if is_backup(rf, q, ring, local) {
                let j = choose|j: int| 0 <= j < o.skip(1).len() && o.skip(1)[j] == local;
                assert(o[j + 1] == local);
            }
            if exists|k: int| 1 <= k < o.len() && #[trigger] o[k] == local {
                let k = choose|k: int| 1 <= k < o.len() && #[trigger] o[k] == local;
                assert(o.skip(1)[k - 1] == local);
            }
        }
    }
}

/// Where a write goes: with no live node it is kept here; when this node is
/// the primary it is stored here and a copy goes to every backup, each
/// owner after the primary exactly once and nobody else; otherwise nothing
/// is stored here and the write goes to the primary alone. Entries under
/// other keys never change.
pub proof fn law_write_reaches_every_owner<V: Clone>(
    before: Map<(u32, Seq<char>), V>,
    after: Map<(u32, Seq<char>), V>,
    r: WriteFollowUp<V>,
    placement: PartitionManager,
    membership: MembershipService,
    key: Seq<char>,
    value: V,
)
    requires
        put_effect(before, after, r, placement, membership, key, value),
    ensures
        ({
            let p = partition_of(key, placement.num_partitions);
            let owners = owners_for(placement, membership, p);
            &&& forall|k: (u32, Seq<char>)| k != (p, key) ==> (#[trigger] after.contains_key(k) == before.contains_key(k)
                && (before.contains_key(k) ==> after[k] == before[k]))
            &&& (owners.len() == 0 || owners[0] == membership.local_id()) ==> after.contains_key((p, key))
                && after[(p, key)] == value
            &&& (owners.len() > 0 && owners[0] == membership.local_id() && owners.len() > 1) ==> (r matches
                WriteFollowUp::Replicate { backups, .. } && backups@.len() == owners.len() - 1 && forall|j: int|
                0 <= j < backups@.len() ==> #[trigger] backups@[j]@ == owners[j + 1])
            &&& (owners.len() > 0 && owners[0] != membership.local_id()) ==> (r matches
                WriteFollowUp::Forward { primary, .. } && primary@ == owners[0] && after == before)
        }),
{
    let p = partition_of(key, placement.num_partitions);
    let owners = owners_for(placement, membership, p);
    if owners.len() > 1 && owners[0] == membership.local_id() {
        match r {
            WriteFollowUp::Replicate { backups, .. } => {
                assert(id_views(backups@) == owners.skip(1));
                assert(id_views(backups@).len() == backups@.len());
                assert forall|j: int| 0 <= j < backups@.len() implies #[trigger] backups@[j]@ == owners[j + 1] by {
                    assert(id_views(backups@)[j] == backups@[j]@);
                    assert(owners.skip(1)[j] == owners[j + 1]);
                }
            },
            _ => {},
        }
    }
}

} // verus!
