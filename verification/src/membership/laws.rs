//! Laws of the membership protocol, proved over the step functions that
//! `MembershipService` follows exactly.

use vstd::prelude::*;

use crate::membership::service::{
    ack_touch, ack_update, alive_update, detect_update, merge_all, merge_update, message_update,
    ping_update, self_suspected, suspect_counter, suspect_update, MemberView,

};
use crate::membership::types::{GossipMessage, NetAddr, NodeId, NodeState};
use crate::membership::service::{DEAD_TIMEOUT_NS, SUSPECT_TIMEOUT_NS};

verus! {

/// Every node known before a step is still known after it, with an
/// incarnation at least as high, and a dead node is still dead.
pub open spec fn keeps_history(before: MemberView, after: MemberView) -> bool {
    forall|k: Seq<char>| #[trigger]
        before.contains_key(k) ==> {
            &&& after.contains_key(k)
            &&& after[k].incarnation >= before[k].incarnation
            &&& (before[k].state == NodeState::Dead ==> after[k].state == NodeState::Dead)
        }
}

/// The one step that can lower a recorded incarnation: the local node
/// refuting a suspicion of itself while its own entry carries an
/// incarnation (learned from gossip) above its counter plus one.
pub open spec fn refutation_lowers(m: MemberView, local: Seq<char>, counter: u64, msg: GossipMessage) -> bool {
    match msg {
        GossipMessage::Suspect { node_id, incarnation } => self_suspected(m, local, node_id@)
            && m[local].incarnation > counter + 1,
        _ => false,
    }
}

/// Merging gossiped members into the view (one after another, as an `Ack`
/// carries them) keeps every known node, never lowers a recorded
/// incarnation and never revives a dead node.
pub proof fn law_merge_keeps_history(m: MemberView, list: Seq<crate::membership::types::Node>, now: u64)
    ensures
        keeps_history(m, merge_all(m, list, now)),
    decreases list.len(),
{
    if list.len() > 0 {
        law_merge_keeps_history(m, list.drop_last(), now);
        let mid = merge_all(m, list.drop_last(), now);
        let after = merge_update(mid, list.last(), now);
        assert(keeps_history(mid, after));
        assert forall|k: Seq<char>| #[trigger] m.contains_key(k) implies {
            &&& after.contains_key(k)
            &&& after[k].incarnation >= m[k].incarnation
            &&& (m[k].state == NodeState::Dead ==> after[k].state == NodeState::Dead)
        } by {
            assert(mid.contains_key(k));
        }
    }
}

/// No gossip message makes the local view forget a node.
pub proof fn law_no_member_forgotten(
    m: MemberView,
    local: Seq<char>,
    counter: u64,
    msg: GossipMessage,
    src: NetAddr,
    now: u64,
)
    ensures
        forall|k: Seq<char>| #[trigger]
            m.contains_key(k) ==> message_update(m, local, counter, msg, src, now).contains_key(k),
{
    match msg {
        GossipMessage::Ack { from, incarnation, members } => {
            let touched = ack_touch(m, from, incarnation, now);
            law_merge_keeps_history(touched, members@, now);
            assert forall|k: Seq<char>| #[trigger] m.contains_key(k) implies message_update(
                m,
                local,
                counter,
                msg,
                src,
                now,
            ).contains_key(k) by {
                assert(touched.contains_key(k));
            }
        },
        _ => {},
    }
}

/// Apart from `Join`, which replaces what is known of the joining node, no
/// gossip message lowers the incarnation on record for a node or revives a
/// dead node; the only exception is the refutation of a suspicion of the
/// local node while its entry carries an incarnation above the local
/// counter plus one.
pub proof fn law_gossip_keeps_history(
    m: MemberView,
    local: Seq<char>,
    counter: u64,
    msg: GossipMessage,
    src: NetAddr,
    now: u64,
)
    requires
        !(msg is Join),
        msg matches GossipMessage::Suspect { node_id, .. } && self_suspected(m, local, node_id@) ==> counter
            < u64::MAX,
        !refutation_lowers(m, local, counter, msg),
    ensures
        keeps_history(m, message_update(m, local, counter, msg, src, now)),
{
    match msg {
        GossipMessage::Ping { from, incarnation } => {
            let after = ping_update(m, from, incarnation, src, now);
            assert(keeps_history(m, after));
        },
        GossipMessage::Ack { from, incarnation, members } => {
            let touched = ack_touch(m, from, incarnation, now);
            assert(keeps_history(m, touched));
            law_merge_keeps_history(touched, members@, now);
            let after = ack_update(m, from, incarnation, members@, now);
            assert forall|k: Seq<char>| #[trigger] m.contains_key(k) implies {
                &&& after.contains_key(k)
                &&& after[k].incarnation >= m[k].incarnation
                &&& (m[k].state == NodeState::Dead ==> after[k].state == NodeState::Dead)
            } by {
                assert(touched.contains_key(k));
            }
        },
        GossipMessage::Join { node } => {},
        GossipMessage::Suspect { node_id, incarnation } => {
            let after = suspect_update(m, local, counter, node_id, incarnation, now);
            assert(keeps_history(m, after));
        },
        GossipMessage::Alive { node_id, incarnation } => {
            let after = alive_update(m, node_id, incarnation, now);
            assert(keeps_history(m, after));
        },
    }
}

/// A suspicion of the local node (known and not dead), whatever incarnation
/// it carries, is refuted: the counter goes up by one and the local node is
/// recorded `Alive` with the new counter as its incarnation.
pub proof fn law_self_refutation(m: MemberView, local: Seq<char>, counter: u64, node_id: NodeId, inc: u64, now: u64)
    requires
        node_id@ == local,
        m.contains_key(local),
        m[local].state != NodeState::Dead,
        counter < u64::MAX,
    ensures
        suspect_counter(m, local, counter, local, inc) == counter + 1,
        suspect_update(m, local, counter, node_id, inc, now)[local].state == NodeState::Alive,
        suspect_update(m, local, counter, node_id, inc, now)[local].incarnation == counter + 1,
{
}

/// A suspect is cleared by an `Alive` report carrying the incarnation on
/// record for it.
pub proof fn law_alive_refutes_suspect(m: MemberView, node_id: NodeId, now: u64)
    requires
        m.contains_key(node_id@),
        m[node_id@].state == NodeState::Suspect,
    ensures
        alive_update(m, node_id, m[node_id@].incarnation, now)[node_id@].state == NodeState::Alive,
{
}

/// A tick of the failure detector forgets nobody, changes no incarnation,
/// leaves the local node and dead nodes as they are, and moves every other
/// node at most one step along `Alive` → `Suspect` → `Dead`.
pub proof fn law_failure_detector(m: MemberView, local: Seq<char>, now: u64)
    requires
        forall|k: Seq<char>| #[trigger] m.contains_key(k) ==> m[k].id@ == k,
    ensures
        keeps_history(m, detect_update(m, local, now)),
        forall|k: Seq<char>| #[trigger]
            m.contains_key(k) ==> {
                let a = detect_update(m, local, now)[k];
                &&& a.incarnation == m[k].incarnation
                &&& a.id == m[k].id
                &&& (k == local ==> a == m[k])
                &&& (m[k].state == NodeState::Dead ==> a == m[k])
                &&& (m[k].state == NodeState::Alive ==> a.state == NodeState::Alive || a.state
                    == NodeState::Suspect)
                &&& (m[k].state == NodeState::Suspect ==> a.state == NodeState::Suspect || a.state
                    == NodeState::Dead)
            },
{
}

/// An `Alive` report about a known, not dead node that carries a higher
/// incarnation than the one on record is adopted: the node is recorded
/// `Alive` with that incarnation and seen now. A report with a lower
/// incarnation changes nothing, and no other node is touched.
pub proof fn law_alive_report_adopted(m: MemberView, node_id: NodeId, inc: u64, now: u64)
    requires
        m.contains_key(node_id@),
        m[node_id@].state != NodeState::Dead,
    ensures
        inc > m[node_id@].incarnation ==> {
            let a = alive_update(m, node_id, inc, now);
            &&& a.contains_key(node_id@)
            &&& a[node_id@].state == NodeState::Alive
            &&& a[node_id@].incarnation == inc
            &&& a[node_id@].last_seen == Some(now)
            &&& a[node_id@].id == m[node_id@].id
        },
        inc < m[node_id@].incarnation ==> alive_update(m, node_id, inc, now) == m,
        forall|k: Seq<char>|
            k != node_id@ ==> (#[trigger] alive_update(m, node_id, inc, now).contains_key(k) == m.contains_key(k)
                && (m.contains_key(k) ==> alive_update(m, node_id, inc, now)[k] == m[k])),
{
}

/// Merging a gossiped node: over a known, not dead entry, a higher
/// incarnation brings in the gossiped state and incarnation (the node is
/// seen now, its id and addresses stay); an equal or lower one, or a dead
/// entry, changes nothing. An unknown node gossiped as not dead is added
/// with the gossiped state and incarnation. No other node is touched.
pub proof fn law_merge_adopts_newer(m: MemberView, n: crate::membership::types::Node, now: u64)
    ensures
        m.contains_key(n.id@) && m[n.id@].state != NodeState::Dead && n.incarnation > m[n.id@].incarnation
            ==> {
            let a = merge_update(m, n, now);
            &&& a.contains_key(n.id@)
            &&& a[n.id@].state == n.state
            &&& a[n.id@].incarnation == n.incarnation
            &&& a[n.id@].last_seen == Some(now)
            &&& a[n.id@].id == m[n.id@].id
            &&& a[n.id@].gossip_addr == m[n.id@].gossip_addr
        },
        m.contains_key(n.id@) && (m[n.id@].state == NodeState::Dead || n.incarnation <= m[n.id@].incarnation)
            ==> merge_update(m, n, now) == m,
        !m.contains_key(n.id@) && n.state != NodeState::Dead ==> {
            let a = merge_update(m, n, now);
            &&& a.contains_key(n.id@)
            &&& a[n.id@].state == n.state
            &&& a[n.id@].incarnation == n.incarnation
            &&& a[n.id@].last_seen == Some(now)
        },
        forall|k: Seq<char>|
            k != n.id@ ==> (#[trigger] merge_update(m, n, now).contains_key(k) == m.contains_key(k) && (
            m.contains_key(k) ==> merge_update(m, n, now)[k] == m[k])),
{
}

/// A `Suspect` report about another known, not dead node with an
/// incarnation at least the one on record makes that node `Suspect` with
/// the reported incarnation, seen now; a report with a lower incarnation,
/// or about a dead or unknown node, changes nothing. The counter stays, and
/// no other node is touched.
pub proof fn law_peer_suspicion(m: MemberView, local: Seq<char>, counter: u64, node_id: NodeId, inc: u64, now: u64)
    requires
        node_id@ != local,
    ensures
        suspect_counter(m, local, counter, node_id@, inc) == counter,
        m.contains_key(node_id@) && m[node_id@].state != NodeState::Dead && inc >= m[node_id@].incarnation ==> {
            let a = suspect_update(m, local, counter, node_id, inc, now);
            &&& a.contains_key(node_id@)
            &&& a[node_id@].state == NodeState::Suspect
            &&& a[node_id@].incarnation == inc
            &&& a[node_id@].last_seen == Some(now)
            &&& a[node_id@].id == m[node_id@].id
        },
        !(m.contains_key(node_id@) && m[node_id@].state != NodeState::Dead && inc >= m[node_id@].incarnation)
            ==> suspect_update(m, local, counter, node_id, inc, now) == m,
        forall|k: Seq<char>|
            k != node_id@ ==> (#[trigger] suspect_update(m, local, counter, node_id, inc, now).contains_key(k)
                == m.contains_key(k) && (m.contains_key(k) ==> suspect_update(
                m,
                local,
                counter,
                node_id,
                inc,
                now,
            )[k] == m[k])),
{
}

/// An `Ack` from a known, not dead node marks its sender `Alive`, seen now,
/// with the higher of the two incarnations; an `Ack` from a dead node
/// changes nothing. A `Ping` refreshes a known sender the same way without
/// changing its state, and records an unknown sender as `Alive` with the
/// ping's incarnation.
pub proof fn law_ack_and_ping_refresh(m: MemberView, from: NodeId, inc: u64, src: NetAddr, now: u64)
    ensures
        m.contains_key(from@) && m[from@].state != NodeState::Dead ==> {
            let a = ack_touch(m, from, inc, now);
            &&& a[from@].state == NodeState::Alive
            &&& a[from@].last_seen == Some(now)
            &&& a[from@].incarnation >= inc
            &&& a[from@].incarnation >= m[from@].incarnation
            &&& (a[from@].incarnation == inc || a[from@].incarnation == m[from@].incarnation)
        },
        m.contains_key(from@) && m[from@].state == NodeState::Dead ==> ack_update(m, from, inc, Seq::empty(), now) == m,
        m.contains_key(from@) ==> {
            let a = ping_update(m, from, inc, src, now);
            &&& a[from@].state == m[from@].state
            &&& a[from@].last_seen == Some(now)
            &&& a[from@].incarnation >= inc
            &&& a[from@].incarnation >= m[from@].incarnation
            &&& (a[from@].incarnation == inc || a[from@].incarnation == m[from@].incarnation)
        },
        !m.contains_key(from@) ==> {
            let a = ping_update(m, from, inc, src, now);
            &&& a.contains_key(from@)
            &&& a[from@].state == NodeState::Alive
            &&& a[from@].incarnation == inc
            &&& a[from@].gossip_addr == src
            &&& a[from@].last_seen == Some(now)
        },
{
}

/// The failure detector's timeouts: a node other than the local one, last
/// seen at `t` no later than `now`, is suspected exactly when it was `Alive`
/// and has been silent for more than the suspect timeout, and declared dead
/// exactly when it was `Suspect` and has been silent for more than the dead
/// timeout. A live node never seen is stamped with `now` and keeps its
/// state.
pub proof fn law_failure_timeouts(m: MemberView, local: Seq<char>, now: u64, k: Seq<char>)
    requires
        m.contains_key(k),
        m[k].id@ == k,
        k != local,
    ensures
        m[k].last_seen is Some && m[k].last_seen->0 <= now ==> {
            let t = m[k].last_seen->0;
            let a = detect_update(m, local, now)[k];
            &&& (m[k].state == NodeState::Alive ==> (a.state == NodeState::Suspect <==> now - t
                > SUSPECT_TIMEOUT_NS))
            &&& (m[k].state == NodeState::Suspect ==> (a.state == NodeState::Dead <==> now - t
                > DEAD_TIMEOUT_NS))
            &&& a.last_seen == m[k].last_seen
        },
        m[k].last_seen is None && m[k].state != NodeState::Dead ==> detect_update(m, local, now)[k].last_seen == Some(now)
            && detect_update(m, local, now)[k].state == m[k].state,
{
}

} // verus!
