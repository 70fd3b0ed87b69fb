//! The membership state machine.
//!
//! `MembershipService` holds the local node, the local view of the cluster
//! (one entry per known node, keyed by node id) and the local incarnation
//! counter. Each incoming gossip message and each tick of the failure
//! detector is a step from one state to the next, returning the datagrams
//! to send. The effect of every step on the view is stated exactly by the
//! spec functions below, and the laws at the end of the file are proved over
//! them. Times (`now`, `last_seen`) are local clock readings in nanoseconds.

use vstd::prelude::*;

use crate::membership::table::{
    lists_entries, member_table, table_entries, table_get, table_insert, table_len, table_new, MemberTable,
};
use crate::membership::types::{
    http_addr_of, http_port_fits, GossipMessage, NetAddr, Node, NodeId, NodeState, Outbound,
};
use crate::sys::random_below;

pub use crate::membership::table::MemberView;

verus! {

/// A node that has not been heard from for longer than this (nanoseconds,
/// 5 s) is suspected.
pub const SUSPECT_TIMEOUT_NS: u64 = 5_000_000_000;

/// A suspect that has not been heard from for longer than this
/// (nanoseconds, 10 s) is declared dead.
pub const DEAD_TIMEOUT_NS: u64 = 10_000_000_000;

/// Interval between gossip probes (milliseconds).
pub const GOSSIP_INTERVAL_MS: u64 = 500;

/// Interval between failure-detector ticks (milliseconds).
pub const FAILURE_DETECTION_INTERVAL_MS: u64 = 2000;

/// The larger of two incarnation numbers.
pub open spec fn max_inc(a: u64, b: u64) -> u64 {
    if a > b {
        a
    } else {
        b
    }
}

/// Effect of a `Ping` from `from` (incarnation `inc`) arriving from `src`.
/// A known sender is refreshed and its incarnation raised if the ping
/// carries a higher one; an unknown sender is added as `Alive`, its HTTP
/// address derived from the datagram's source.
pub open spec fn ping_update(m: MemberView, from: NodeId, inc: u64, src: NetAddr, now: u64) -> MemberView {
    if m.contains_key(from@) {
        let n = m[from@];
        m.insert(from@, Node { last_seen: Some(now), incarnation: max_inc(inc, n.incarnation), ..n })
    } else {
        m.insert(
            from@,
            Node {
                id: from,
                gossip_addr: src,
                http_addr: http_addr_of(src),
                state: NodeState::Alive,
                incarnation: inc,
                last_seen: Some(now),
            },
        )
    }
}

/// Effect of an `Ack` on its sender's own entry: a known, not dead sender
/// is marked `Alive` and refreshed, and its incarnation raised if the ack
/// carries a higher one.
pub open spec fn ack_touch(m: MemberView, from: NodeId, inc: u64, now: u64) -> MemberView {
    if m.contains_key(from@) && m[from@].state != NodeState::Dead {
        let n = m[from@];
        m.insert(
            from@,
            Node { state: NodeState::Alive, last_seen: Some(now), incarnation: max_inc(inc, n.incarnation), ..n },
        )
    } else {
        m
    }
}

/// Effect of merging one gossiped node into the view. Dead entries are
/// never touched; a known entry takes the gossiped state and incarnation
/// only when the incarnation is higher; an unknown node is added unless it
/// is gossiped as dead.
pub open spec fn merge_update(m: MemberView, new: Node, now: u64) -> MemberView {
    if m.contains_key(new.id@) {
        let e = m[new.id@];
        if e.state == NodeState::Dead {
            m
        } else if new.incarnation > e.incarnation {
            m.insert(
                new.id@,
                Node { state: new.state, incarnation: new.incarnation, last_seen: Some(now), ..e },
            )
        } else {
            m
        }
    } else if new.state == NodeState::Dead {
        m
    } else {
        m.insert(new.id@, Node { last_seen: Some(now), ..new })
    }
}

/// Effect of merging a list of gossiped nodes, in list order.
pub open spec fn merge_all(m: MemberView, list: Seq<Node>, now: u64) -> MemberView
    decreases list.len(),
{
    if list.len() == 0 {
        m
    } else {
        merge_update(merge_all(m, list.drop_last(), now), list.last(), now)
    }
}

/// Effect of an `Ack` from `from`: nothing at all if the sender is known to
/// be dead; otherwise the sender's entry is refreshed and the piggybacked
/// members are merged.
pub open spec fn ack_update(m: MemberView, from: NodeId, inc: u64, members: Seq<Node>, now: u64) -> MemberView {
    if m.contains_key(from@) && m[from@].state == NodeState::Dead {
        m
    } else {
        merge_all(ack_touch(m, from, inc, now), members, now)
    }
}

/// Whether a `Suspect` report about another node with incarnation `inc`
/// applies: the node is known, not dead, and the report's incarnation is at
/// least the one on record (the failure detector announces the incarnation
/// it knows).
pub open spec fn suspicion_is_news(m: MemberView, node_id: Seq<char>, inc: u64) -> bool {
    m.contains_key(node_id) && m[node_id].state != NodeState::Dead && inc >= m[node_id].incarnation
}

/// Whether a `Suspect` report is about the local node, known and not dead:
/// such a report is always refuted.
pub open spec fn self_suspected(m: MemberView, local: Seq<char>, node_id: Seq<char>) -> bool {
    node_id == local && m.contains_key(node_id) && m[node_id].state != NodeState::Dead
}

/// Effect of a `Suspect` report. A report about the local node is refuted:
/// the local counter goes up by one and the local entry becomes `Alive` with
/// that incarnation. A report about another node that applies marks it
/// `Suspect` with the reported incarnation. Anything else changes nothing.
pub open spec fn suspect_update(
    m: MemberView,
    local: Seq<char>,
    counter: u64,
    node_id: NodeId,
    inc: u64,
    now: u64,
) -> MemberView {
    if self_suspected(m, local, node_id@) {
        let e = m[node_id@];
        m.insert(
            node_id@,
            Node { incarnation: (counter + 1) as u64, state: NodeState::Alive, last_seen: Some(now), ..e },
        )
    } else if node_id@ != local && suspicion_is_news(m, node_id@, inc) {
        let e = m[node_id@];
        m.insert(node_id@, Node { state: NodeState::Suspect, incarnation: inc, last_seen: Some(now), ..e })
    } else {
        m
    }
}

/// The local counter after a `Suspect` report.
pub open spec fn suspect_counter(m: MemberView, local: Seq<char>, counter: u64, node_id: Seq<char>, inc: u64) -> u64 {
    if self_suspected(m, local, node_id) {
        (counter + 1) as u64
    } else {
        counter
    }
}

/// Effect of an `Alive` report: a known, not dead node becomes `Alive`
/// when the report's incarnation is higher, or when it is equal and the
/// node is a suspect (a successful refutation).
pub open spec fn alive_update(m: MemberView, node_id: NodeId, inc: u64, now: u64) -> MemberView {
    if m.contains_key(node_id@) && m[node_id@].state != NodeState::Dead {
        let e = m[node_id@];
        if inc > e.incarnation || (inc == e.incarnation && e.state == NodeState::Suspect) {
            m.insert(
                node_id@,
                Node { state: NodeState::Alive, incarnation: inc, last_seen: Some(now), ..e },
            )
        } else {
            m
        }
    } else {
        m
    }
}

/// Effect of a `Join`: the joining node is recorded as sent, with a fresh
/// `last_seen`, replacing whatever was known about it.
pub open spec fn join_update(m: MemberView, node: Node, now: u64) -> MemberView {
    m.insert(node.id@, Node { last_seen: Some(now), ..node })
}

/// Nanoseconds between `then` and `now`, zero if `then` is later.
pub open spec fn elapsed(now: u64, then: u64) -> u64 {
    if now >= then {
        (now - then) as u64
    } else {
        0
    }
}

/// What one failure-detector tick does to one node. The local node and
/// dead nodes are left alone; a node never timestamped gets `now`; an
/// `Alive` node silent for more than the suspect timeout becomes `Suspect`;
/// a `Suspect` silent for more than the dead timeout becomes `Dead`.
pub open spec fn detect_node(n: Node, local: Seq<char>, now: u64) -> Node {
    if n.id@ == local || n.state == NodeState::Dead {
        n
    } else {
        match n.last_seen {
            None => Node { last_seen: Some(now), ..n },
            Some(t) => {
                if n.state == NodeState::Alive && elapsed(now, t) > SUSPECT_TIMEOUT_NS {
                    Node { state: NodeState::Suspect, ..n }
                } else if n.state == NodeState::Suspect && elapsed(now, t) > DEAD_TIMEOUT_NS {
                    Node { state: NodeState::Dead, ..n }
                } else {
                    n
                }
            },
        }
    }
}

/// Whether a tick turns this node from `Alive` into `Suspect` (which is
/// announced to the cluster).
pub open spec fn newly_suspected(n: Node, local: Seq<char>, now: u64) -> bool {
    &&& n.id@ != local
    &&& n.state == NodeState::Alive
    &&& n.last_seen is Some
    &&& elapsed(now, n.last_seen->0) > SUSPECT_TIMEOUT_NS
}

/// Effect of a failure-detector tick on the view.
pub open spec fn detect_update(m: MemberView, local: Seq<char>, now: u64) -> MemberView {
    Map::new(|k: Seq<char>| m.contains_key(k), |k: Seq<char>| detect_node(m[k], local, now))
}

/// Whether `n` is `Alive`.
pub open spec fn is_alive(n: Node) -> bool {
    n.state == NodeState::Alive
}

/// Whether `n` is a node other than `local` that is `Alive`.
pub open spec fn is_peer(n: Node, local: Seq<char>) -> bool {
    n.id@ != local && n.state == NodeState::Alive
}

/// The ids of the nodes of `m` that satisfy `keep`.
pub open spec fn kept_keys(m: MemberView, keep: spec_fn(Node) -> bool) -> Set<Seq<char>> {
    Set::new(|k: Seq<char>| m.contains_key(k) && keep(m[k]))
}

/// `r` lists the nodes of `m` stored under `keys`, each exactly once, in
/// some order.
pub open spec fn lists_nodes_in(r: Seq<Node>, m: MemberView, keys: Set<Seq<char>>) -> bool {
    &&& forall|i: int|
        #![trigger r[i]]
        0 <= i < r.len() ==> keys.contains(r[i].id@) && m.contains_key(r[i].id@) && m[r[i].id@] == r[i]
    &&& forall|i: int, j: int| #![trigger r[i], r[j]] 0 <= i < j < r.len() ==> r[i].id@ != r[j].id@
    &&& forall|k: Seq<char>| #[trigger] keys.contains(k) ==> exists|i: int| #![trigger r[i]] 0 <= i < r.len() && r[i].id@ == k
}

/// `r` lists the nodes of `m` that satisfy `keep`, each exactly once, in
/// some order (the order of the member table).
pub open spec fn lists_nodes(r: Seq<Node>, m: MemberView, keep: spec_fn(Node) -> bool) -> bool {
    lists_nodes_in(r, m, kept_keys(m, keep))
}

/// The gossip addresses of a list of nodes.
pub open spec fn addrs_of(ns: Seq<Node>) -> Seq<NetAddr> {
    ns.map_values(|n: Node| n.gossip_addr)
}

/// The same message sent to each of `addrs`, in order.
pub open spec fn notices(addrs: Seq<NetAddr>, msg: GossipMessage) -> Seq<Outbound> {
    Seq::new(addrs.len(), |j: int| Outbound { to: addrs[j], message: msg })
}

/// The `Suspect` announcements for a list of newly suspected nodes: the id
/// and incarnation of each.
pub open spec fn suspicion_of(ns: Seq<Node>) -> Seq<(NodeId, u64)> {
    ns.map_values(|n: Node| (n.id, n.incarnation))
}

/// The `Suspect` message announcing one suspicion.
pub open spec fn suspect_msg(s: (NodeId, u64)) -> GossipMessage {
    GossipMessage::Suspect { node_id: s.0, incarnation: s.1 }
}

/// Each announcement of `sus` sent to each of `addrs`: announcement by
/// announcement, and for each announcement address by address.
pub open spec fn broadcast_all(sus: Seq<(NodeId, u64)>, addrs: Seq<NetAddr>) -> Seq<Outbound>
    decreases sus.len(),
{
    if sus.len() == 0 {
        Seq::empty()
    } else {
        broadcast_all(sus.drop_last(), addrs) + notices(addrs, suspect_msg(sus.last()))
    }
}

/// The ack message sent back for a ping: from `from`, carrying
/// `incarnation` and every node of `m` once.
pub open spec fn is_ack_of(msg: GossipMessage, from: NodeId, incarnation: u64, m: MemberView) -> bool {
    match msg {
        GossipMessage::Ack { from: f, incarnation: i, members: ms } => f == from && i == incarnation
            && lists_nodes(ms@, m, |n: Node| true),
        _ => false,
    }
}

/// The view after a failure-detector tick has reached the nodes under
/// `done`.
pub open spec fn detect_partial(m: MemberView, local: Seq<char>, now: u64, done: Set<Seq<char>>) -> MemberView {
    Map::new(
        |k: Seq<char>| m.contains_key(k),
        |k: Seq<char>|
            if done.contains(k) {
                detect_node(m[k], local, now)
            } else {
                m[k]
            },
    )
}

/// Listing one more node, under an id not yet listed.
pub proof fn lemma_lists_nodes_push(r: Seq<Node>, m: MemberView, keys: Set<Seq<char>>, n: Node)
    requires
        lists_nodes_in(r, m, keys),
        m.contains_key(n.id@),
        m[n.id@] == n,
        !keys.contains(n.id@),
    ensures
        lists_nodes_in(r.push(n), m, keys.insert(n.id@)),
{
    let r2 = r.push(n);
    let keys2 = keys.insert(n.id@);
    assert forall|i: int| #![trigger r2[i]] 0 <= i < r2.len() implies keys2.contains(r2[i].id@) && m.contains_key(
        r2[i].id@,
    ) && m[r2[i].id@] == r2[i] by {
        if i < r.len() {
            assert(r2[i] == r[i]);
        }
    }
    assert forall|i: int, j: int| #![trigger r2[i], r2[j]] 0 <= i < j < r2.len() implies r2[i].id@ != r2[j].id@ by {
        assert(r2[i] == r[i]);
        if j < r.len() {
            assert(r2[j] == r[j]);
        } else {
            assert(keys.contains(r[i].id@));
        }
    }
    assert forall|k: Seq<char>| #[trigger] keys2.contains(k) implies exists|i: int|
        #![trigger r2[i]]
        0 <= i < r2.len() && r2[i].id@ == k by {
        if k == n.id@ {
            assert(r2[r.len() as int] == n);
        } else {
            let i = choose|i: int| #![trigger r[i]] 0 <= i < r.len() && r[i].id@ == k;
            assert(r2[i] == r[i]);
        }
    }
}

/// Effect of any gossip message on the view.
pub open spec fn message_update(
    m: MemberView,
    local: Seq<char>,
    counter: u64,
    msg: GossipMessage,
    src: NetAddr,
    now: u64,
) -> MemberView {
    match msg {
        GossipMessage::Ping { from, incarnation } => ping_update(m, from, incarnation, src, now),
        GossipMessage::Ack { from, incarnation, members } => ack_update(m, from, incarnation, members@, now),
        GossipMessage::Join { node } => join_update(m, node, now),
        GossipMessage::Suspect { node_id, incarnation } => suspect_update(
            m,
            local,
            counter,
            node_id,
            incarnation,
            now,
        ),
        GossipMessage::Alive { node_id, incarnation } => alive_update(m, node_id, incarnation, now),
    }
}

/// The local counter after any gossip message.
pub open spec fn message_counter(m: MemberView, local: Seq<char>, counter: u64, msg: GossipMessage) -> u64 {
    match msg {
        GossipMessage::Suspect { node_id, incarnation } => suspect_counter(
            m,
            local,
            counter,
            node_id@,
            incarnation,
        ),
        _ => counter,
    }
}

/// Whether a message may be handled: a ping from an unknown node must come
/// from a port whose HTTP companion fits in a port number.
pub open spec fn message_admissible(m: MemberView, msg: GossipMessage, src: NetAddr) -> bool {
    match msg {
        GossipMessage::Ping { from, incarnation } => m.contains_key(from@) || http_port_fits(src),
        _ => true,
    }
}

/// Which members a listing selects.
enum Select {
    All,
    Alive,
    Peers,
}

/// The predicate a selection stands for.
spec fn selected(which: Select, local: Seq<char>) -> spec_fn(Node) -> bool {
    match which {
        Select::All => |n: Node| true,
        Select::Alive => |n: Node| is_alive(n),
        Select::Peers => |n: Node| is_peer(n, local),
    }
}

/// The membership service: the local node, the view of the cluster and
/// the local incarnation counter.
pub struct MembershipService {
    /// The local node as it was created.
    pub local_node: Node,
    /// All known members, keyed by node id.
    members: MemberTable,
    /// The local incarnation number, raised to refute suspicion.
    pub incarnation: u64,
}

impl MembershipService {
    /// The view is finite and every entry is stored under its own node's id.
    pub open spec fn wf(&self) -> bool {
        &&& self.view_map().dom().finite()
        &&& forall|k: Seq<char>| #[trigger] self.view_map().contains_key(k) ==> self.view_map()[k].id@ == k
    }

    /// The view of the cluster.
    pub closed spec fn view_map(&self) -> MemberView {
        member_table(self.members)
    }

    /// The local incarnation counter.
    pub closed spec fn counter(&self) -> u64 {
        self.incarnation
    }

    /// The local node as it was created.
    pub closed spec fn local(&self) -> Node {
        self.local_node
    }

    /// The id of the local node.
    pub open spec fn local_id(&self) -> Seq<char> {
        self.local().id@
    }

    /// Creates the service for a node bound to `bind_addr`: the local node
    /// is `Alive` with incarnation 1, its HTTP port is the gossip port plus
    /// 1000, and it is the only member.
    pub fn new(id: NodeId, bind_addr: NetAddr, now: u64) -> (s: Self)
        requires
            http_port_fits(bind_addr),
        ensures
            s.wf(),
            s.counter() == 1,
            s.local() == (Node {
                id: id,
                gossip_addr: bind_addr,
                http_addr: http_addr_of(bind_addr),
                state: NodeState::Alive,
                incarnation: 1,
                last_seen: Some(now),
            }),
            s.view_map() == MemberView::empty().insert(id@, s.local()),
    {
        let local_node = Node {
            id: id,
            gossip_addr: bind_addr,
            http_addr: bind_addr.http_companion(),
            state: NodeState::Alive,
            incarnation: 1,
            last_seen: Some(now),
        };
        let mut members = table_new();
        table_insert(&mut members, local_node.id.clone(), local_node.clone());
        let s = MembershipService { local_node, members, incarnation: 1 };
        proof {
            assert(s.view_map().dom() =~= Set::<Seq<char>>::empty().insert(s.local_node.id@));
        }
        s
    }

    /// The number of known members, the local node included.
    pub fn member_count(&self) -> (r: usize)
        ensures
            r == self.view_map().len(),
    {
        table_len(&self.members)
    }

    /// The id of the local node.
    pub fn local_node_id(&self) -> (r: &NodeId)
        ensures
            *r == self.local().id,
    {
        &self.local_node.id
    }

    /// The local incarnation counter.
    pub fn incarnation(&self) -> (r: u64)
        ensures
            r == self.counter(),
    {
        self.incarnation
    }

    /// A copy of the member with the given id, if known.
    pub fn get_member(&self, node_id: &NodeId) -> (r: Option<Node>)
        requires
            self.wf(),
        ensures
            r == (if self.view_map().contains_key(node_id@) {
                Some(self.view_map()[node_id@])
            } else {
                None
            }),
    {
        table_get(&self.members, node_id)
    }

    /// The members a selection picks, each once, in the order of the member table.
    fn select(&self, which: Select) -> (r: Vec<Node>)
        requires
            self.wf(),
        ensures
            lists_nodes(r@, self.view_map(), selected(which, self.local_id())),
    {
        let es = table_entries(&self.members);
        let ghost m = self.view_map();
        let ghost keep = selected(which, self.local_id());
        let mut r: Vec<Node> = Vec::new();
        let n = es.len();
        let mut i: usize = 0;
        proof {
            assert(Set::new(|k: Seq<char>| m.contains_key(k) && keep(m[k]) && exists|q: int| 0 <= q < 0 && #[trigger] es@[q].0@ == k) =~= Set::<Seq<char>>::empty());
        }
        while i < n
            invariant
                self.wf(),
                m == self.view_map(),
                keep == selected(which, self.local_id()),
                n == es@.len(),
                i <= n,
                lists_entries(es@, m),
                lists_nodes_in(
                    r@,
                    m,
                    Set::new(|k: Seq<char>| m.contains_key(k) && keep(m[k]) && exists|q: int| 0 <= q < i && #[trigger] es@[q].0@ == k),
                ),
            decreases n - i,
        {
            let e = &es[i];
            let ghost done = Set::new(|k: Seq<char>| m.contains_key(k) && keep(m[k]) && exists|q: int| 0 <= q < i && #[trigger] es@[q].0@ == k);
            let ghost next = Set::new(|k: Seq<char>| m.contains_key(k) && keep(m[k]) && exists|q: int| 0 <= q < i + 1 && #[trigger] es@[q].0@ == k);
            proof {
                assert(es@[i as int] == *e);
                assert(m.contains_key(e.0@) && m[e.0@] == e.1);
                assert(e.1.id@ == e.0@);
            }
            let take = match which {
                Select::All => true,
                Select::Alive => e.1.state == NodeState::Alive,
                Select::Peers => !e.1.id.same(&self.local_node.id) && e.1.state == NodeState::Alive,
            };
            proof {
                assert(take == keep(e.1));
            }
            if take {
                proof {
                    assert(!done.contains(e.1.id@)) by {
                        if done.contains(e.1.id@) {
                            let q = choose|q: int| 0 <= q < i && #[trigger] es@[q].0@ == e.1.id@;
                            assert(es@[q] == es@[q]);
                        }
                    }
                    lemma_lists_nodes_push(r@, m, done, e.1);
                    assert(done.insert(e.1.id@) =~= next) by {
                        assert forall|k: Seq<char>| next.contains(k) implies done.insert(e.1.id@).contains(k) by {
                            let q = choose|q: int| 0 <= q < i + 1 && #[trigger] es@[q].0@ == k;
                            if q < i {
                                assert(done.contains(k));
                            }
                        }
                    }
                }
                r.push(e.1.clone());
            } else {
                proof {
                    assert(done =~= next) by {
                        assert forall|k: Seq<char>| next.contains(k) implies done.contains(k) by {
                            let q = choose|q: int| 0 <= q < i + 1 && #[trigger] es@[q].0@ == k;
                            if q == i {
                                assert(m[k] == e.1);
                            }
                        }
                    }
                }
            }
            i = i + 1;
        }
        proof {
            assert(Set::new(|k: Seq<char>| m.contains_key(k) && keep(m[k]) && exists|q: int| 0 <= q < n && #[trigger] es@[q].0@ == k) =~= kept_keys(m, keep)) by {
                assert forall|k: Seq<char>| kept_keys(m, keep).contains(k) implies exists|q: int| 0 <= q < n && #[trigger] es@[q].0@ == k by {
                    assert(m.contains_key(k));
                    let q = choose|q: int| #![trigger es@[q]] 0 <= q < es@.len() && es@[q].0@ == k;
                    assert(es@[q].0@ == k);
                }
            }
        }
        r
    }

    /// All members currently `Alive`, each once, in the order of the member table.
    pub fn get_alive_members(&self) -> (r: Vec<Node>)
        requires
            self.wf(),
        ensures
            lists_nodes(r@, self.view_map(), |n: Node| is_alive(n)),
    {
        self.select(Select::Alive)
    }

    /// Gossip addresses of the other members that are `Alive`, each member
    /// once, in the order of the member table.
    pub fn alive_peer_addrs(&self) -> (r: Vec<NetAddr>)
        requires
            self.wf(),
        ensures
            exists|ns: Seq<Node>| lists_nodes(ns, self.view_map(), |n: Node| is_peer(n, self.local_id())) && r@ == addrs_of(ns),
    {
        let peers = self.select(Select::Peers);
        let mut r: Vec<NetAddr> = Vec::new();
        let n = peers.len();
        let mut i: usize = 0;
        while i < n
            invariant
                n == peers@.len(),
                i <= n,
                r@ == addrs_of(peers@.take(i as int)),
            decreases n - i,
        {
            r.push(peers[i].gossip_addr);
            proof {
                assert(addrs_of(peers@.take(i + 1)) =~= addrs_of(peers@.take(i as int)).push(peers@[i as int].gossip_addr));
            }
            i = i + 1;
        }
        proof {
            assert(peers@.take(n as int) =~= peers@);
            assert(lists_nodes(peers@, self.view_map(), |n: Node| is_peer(n, self.local_id())));
        }
        r
    }

    /// Copies of all members, each once, in the order of the member table.
    pub fn all_members(&self) -> (r: Vec<Node>)
        requires
            self.wf(),
        ensures
            lists_nodes(r@, self.view_map(), |n: Node| true),
    {
        self.select(Select::All)
    }

    /// Stores `node` under its own id, keeping the view well formed.
    fn put_node(&mut self, node: Node)
        requires
            old(self).wf(),
        ensures
            final(self).wf(),
            final(self).view_map() == old(self).view_map().insert(node.id@, node),
            final(self).local() == old(self).local(),
            final(self).counter() == old(self).counter(),
    {
        let key = node.id.clone();
        table_insert(&mut self.members, key, node);
    }

    /// Sends `Alive` (when `alive`) or `Suspect` about `node_id` with
    /// incarnation `inc` to every other member that is `Alive`.
    pub fn broadcast(&self, alive: bool, node_id: &NodeId, inc: u64) -> (out: Vec<Outbound>)
        requires
            self.wf(),
        ensures
            exists|ns: Seq<Node>|
                lists_nodes(ns, self.view_map(), |n: Node| is_peer(n, self.local_id())) && out@ == notices(
                    addrs_of(ns),
                    if alive {
                        GossipMessage::Alive { node_id: *node_id, incarnation: inc }
                    } else {
                        GossipMessage::Suspect { node_id: *node_id, incarnation: inc }
                    },
                ),
    {
        let addrs = self.alive_peer_addrs();
        let ghost ns = choose|ns: Seq<Node>| lists_nodes(ns, self.view_map(), |n: Node| is_peer(n, self.local_id())) && addrs@ == addrs_of(ns);
        let ghost msg = if alive {
            GossipMessage::Alive { node_id: *node_id, incarnation: inc }
        } else {
            GossipMessage::Suspect { node_id: *node_id, incarnation: inc }
        };
        let mut out: Vec<Outbound> = Vec::new();
        let n = addrs.len();
        let mut j: usize = 0;
        while j < n
            invariant
                n == addrs@.len(),
                j <= n,
                out@ == notices(addrs@.take(j as int), msg),
                msg == (if alive {
                    GossipMessage::Alive { node_id: *node_id, incarnation: inc }
                } else {
                    GossipMessage::Suspect { node_id: *node_id, incarnation: inc }
                }),
            decreases n - j,
        {
            let message = if alive {
                GossipMessage::Alive { node_id: node_id.clone(), incarnation: inc }
            } else {
                GossipMessage::Suspect { node_id: node_id.clone(), incarnation: inc }
            };
            out.push(Outbound { to: addrs[j], message });
            proof {
                assert(notices(addrs@.take(j + 1), msg) =~= notices(addrs@.take(j as int), msg).push(
                    Outbound { to: addrs@[j as int], message: msg },
                ));
            }
            j = j + 1;
        }
        proof {
            assert(addrs@.take(n as int) =~= addrs@);
        }
        out
    }

    /// Handles a `Ping`: refreshes or adds the sender, then answers with an
    /// `Ack` carrying the local incarnation and all members.
    pub fn handle_ping(&mut self, from: NodeId, from_incarnation: u64, src: NetAddr, now: u64) -> (out: Outbound)
        requires
            old(self).wf(),
            old(self).view_map().contains_key(from@) || http_port_fits(src),
        ensures
            final(self).wf(),
            final(self).view_map() == ping_update(old(self).view_map(), from, from_incarnation, src, now),
            final(self).local() == old(self).local(),
            final(self).counter() == old(self).counter(),
            out.to == src,
            is_ack_of(out.message, old(self).local().id, old(self).counter(), final(self).view_map()),
    {
        match table_get(&self.members, &from) {
            Some(existing) => {
                let mut updated = existing.clone();
                updated.last_seen = Some(now);
                if from_incarnation > updated.incarnation {
                    updated.incarnation = from_incarnation;
                }
                self.put_node(updated);
            },
            None => {
                let node = Node {
                    id: from,
                    gossip_addr: src,
                    http_addr: src.http_companion(),
                    state: NodeState::Alive,
                    incarnation: from_incarnation,
                    last_seen: Some(now),
                };
                self.put_node(node);
            },
        }
        let members = self.all_members();
        Outbound {
            to: src,
            message: GossipMessage::Ack {
                from: self.local_node.id.clone(),
                incarnation: self.incarnation,
                members,
            },
        }
    }

    /// Merges one gossiped node into the view.
    pub fn merge_member(&mut self, new_member: Node, now: u64)
        requires
            old(self).wf(),
        ensures
            final(self).wf(),
            final(self).view_map() == merge_update(old(self).view_map(), new_member, now),
            final(self).local() == old(self).local(),
            final(self).counter() == old(self).counter(),
    {
        match table_get(&self.members, &new_member.id) {
            Some(existing) => {
                if existing.state == NodeState::Dead {
                    return;
                }
                if new_member.incarnation > existing.incarnation {
                    let mut updated = existing.clone();
                    updated.state = new_member.state;
                    updated.incarnation = new_member.incarnation;
                    updated.last_seen = Some(now);
                    self.put_node(updated);
                }
            },
            None => {
                if new_member.state == NodeState::Dead {
                    return;
                }
                let mut member_with_timestamp = new_member;
                member_with_timestamp.last_seen = Some(now);
                self.put_node(member_with_timestamp);
            },
        }
    }

    /// Handles an `Ack`: ignored entirely if the sender is known to be dead;
    /// otherwise refreshes the sender and merges the members it carries, in
    /// order.
    pub fn handle_ack(&mut self, from: NodeId, from_incarnation: u64, members: Vec<Node>, now: u64)
        requires
            old(self).wf(),
        ensures
            final(self).wf(),
            final(self).view_map() == ack_update(
                old(self).view_map(),
                from,
                from_incarnation,
                members@,
                now,
            ),
            final(self).local() == old(self).local(),
            final(self).counter() == old(self).counter(),
    {
        match table_get(&self.members, &from) {
            Some(existing) => {
                if existing.state == NodeState::Dead {
                    return;
                }
                let mut updated = existing.clone();
                updated.state = NodeState::Alive;
                updated.last_seen = Some(now);
                if from_incarnation > updated.incarnation {
                    updated.incarnation = from_incarnation;
                }
                self.put_node(updated);
            },
            None => {},
        }
        let ghost touched = self.view_map();
        assert(touched == ack_touch(old(self).view_map(), from, from_incarnation, now));
        let n = members.len();
        let mut i: usize = 0;
        let mut members = members;
        let ghost list = members@;
        while i < n
            invariant
                self.wf(),
                n == list.len(),
                members@ == list,
                i <= n,
                self.view_map() == merge_all(touched, list.take(i as int), now),
                self.local_node == old(self).local_node,
                self.counter() == old(self).counter(),
            decreases n - i,
        {
            let m = members[i].clone();
            self.merge_member(m, now);
            proof {
                assert(list.take(i + 1).drop_last() =~= list.take(i as int));
            }
            i = i + 1;
        }
        proof {
            assert(list.take(n as int) =~= list);
        }
    }

    /// Handles a `Suspect` report. Suspicion of the local node is refuted:
    /// the counter goes up, the local entry becomes `Alive` with the new
    /// incarnation, and `Alive` is broadcast to the other live members.
    pub fn handle_suspect(&mut self, node_id: NodeId, incarnation: u64, now: u64) -> (out: Vec<Outbound>)
        requires
            old(self).wf(),
            node_id@ == old(self).local_id() ==> old(self).counter() < u64::MAX,
        ensures
            final(self).wf(),
            final(self).view_map() == suspect_update(
                old(self).view_map(),
                old(self).local_id(),
                old(self).counter(),
                node_id,
                incarnation,
                now,
            ),
            final(self).counter() == suspect_counter(
                old(self).view_map(),
                old(self).local_id(),
                old(self).counter(),
                node_id@,
                incarnation,
            ),
            final(self).local() == old(self).local(),
            if self_suspected(old(self).view_map(), old(self).local_id(), node_id@) {
                exists|ns: Seq<Node>|
                    lists_nodes(ns, final(self).view_map(), |n: Node| is_peer(n, final(self).local_id()))
                        && out@ == notices(
                        addrs_of(ns),
                        GossipMessage::Alive { node_id: node_id, incarnation: final(self).counter() },
                    )
            } else {
                out@.len() == 0
            },
    {
        match table_get(&self.members, &node_id) {
            Some(existing) => {
                if existing.state == NodeState::Dead {
                    return Vec::new();
                }
                if node_id.same(&self.local_node.id) {
                    self.incarnation = self.incarnation + 1;
                    let my_incarnation = self.incarnation;
                    let mut updated = existing.clone();
                    updated.incarnation = my_incarnation;
                    updated.state = NodeState::Alive;
                    updated.last_seen = Some(now);
                    self.put_node(updated);
                    self.broadcast(true, &node_id, my_incarnation)
                } else if incarnation >= existing.incarnation {
                    let mut updated = existing.clone();
                    updated.state = NodeState::Suspect;
                    updated.incarnation = incarnation;
                    updated.last_seen = Some(now);
                    self.put_node(updated);
                    Vec::new()
                } else {
                    Vec::new()
                }
            },
            None => Vec::new(),
        }
    }

    /// Handles an `Alive` report.
    pub fn handle_alive(&mut self, node_id: NodeId, incarnation: u64, now: u64)
        requires
            old(self).wf(),
        ensures
            final(self).wf(),
            final(self).view_map() == alive_update(old(self).view_map(), node_id, incarnation, now),
            final(self).local() == old(self).local(),
            final(self).counter() == old(self).counter(),
    {
        match table_get(&self.members, &node_id) {
            Some(existing) => {
                if existing.state == NodeState::Dead {
                    return;
                }
                if incarnation > existing.incarnation || (incarnation == existing.incarnation
                    && existing.state == NodeState::Suspect) {
                    let mut updated = existing.clone();
                    updated.state = NodeState::Alive;
                    updated.incarnation = incarnation;
                    updated.last_seen = Some(now);
                    self.put_node(updated);
                }
            },
            None => {},
        }
    }

    /// Handles a `Join`: records the joining node.
    pub fn handle_join(&mut self, node: Node, now: u64)
        requires
            old(self).wf(),
        ensures
            final(self).wf(),
            final(self).view_map() == join_update(old(self).view_map(), node, now),
            final(self).local() == old(self).local(),
            final(self).counter() == old(self).counter(),
    {
        let mut node = node;
        node.last_seen = Some(now);
        self.put_node(node);
    }

    /// One tick of the failure detector: every other node that is not dead
    /// is aged (see `detect_node`), then each newly suspected node is
    /// announced with `Suspect` to every other member still `Alive`.
    pub fn detect_failures(&mut self, now: u64) -> (out: Vec<Outbound>)
        requires
            old(self).wf(),
        ensures
            final(self).wf(),
            final(self).view_map() == detect_update(old(self).view_map(), old(self).local_id(), now),
            final(self).local() == old(self).local(),
            final(self).counter() == old(self).counter(),
            exists|sus: Seq<Node>, peers: Seq<Node>|
                {
                    &&& lists_nodes(
                        sus,
                        old(self).view_map(),
                        |n: Node| newly_suspected(n, old(self).local_id(), now),
                    )
                    &&& lists_nodes(peers, final(self).view_map(), |n: Node| is_peer(n, final(self).local_id()))
                    &&& out@ == broadcast_all(suspicion_of(sus), addrs_of(peers))
                },
    {
        let ghost m0 = self.view_map();
        let ghost local = self.local_id();
        let ghost keep = |n: Node| newly_suspected(n, local, now);
        let es = table_entries(&self.members);
        let n = es.len();
        let mut sus: Vec<(NodeId, u64)> = Vec::new();
        let ghost mut sus_nodes: Seq<Node> = Seq::empty();
        let mut i: usize = 0;
        proof {
            assert(detect_partial(m0, local, now, Set::new(|k: Seq<char>| exists|q: int| 0 <= q < 0 && #[trigger] es@[q].0@ == k)) =~= m0);
            assert(Set::new(|k: Seq<char>| m0.contains_key(k) && keep(m0[k]) && exists|q: int| 0 <= q < 0 && #[trigger] es@[q].0@ == k) =~= Set::<Seq<char>>::empty());
        }
        while i < n
            invariant
                self.wf(),
                self.local_node == old(self).local_node,
                self.counter() == old(self).counter(),
                m0 == old(self).view_map(),
                forall|k: Seq<char>| #[trigger] m0.contains_key(k) ==> m0[k].id@ == k,
                local == self.local_id(),
                keep == (|n: Node| newly_suspected(n, local, now)),
                n == es@.len(),
                i <= n,
                lists_entries(es@, m0),
                self.view_map() == detect_partial(m0, local, now, Set::new(|k: Seq<char>| exists|q: int| 0 <= q < i && #[trigger] es@[q].0@ == k)),
                lists_nodes_in(
                    sus_nodes,
                    m0,
                    Set::new(|k: Seq<char>| m0.contains_key(k) && keep(m0[k]) && exists|q: int| 0 <= q < i && #[trigger] es@[q].0@ == k),
                ),
                sus@ == suspicion_of(sus_nodes),
            decreases n - i,
        {
            let e = &es[i];
            let ghost done = Set::new(|k: Seq<char>| exists|q: int| 0 <= q < i && #[trigger] es@[q].0@ == k);
            let ghost next = Set::new(|k: Seq<char>| exists|q: int| 0 <= q < i + 1 && #[trigger] es@[q].0@ == k);
            let ghost sdone = Set::new(|k: Seq<char>| m0.contains_key(k) && keep(m0[k]) && exists|q: int| 0 <= q < i && #[trigger] es@[q].0@ == k);
            let ghost snext = Set::new(|k: Seq<char>| m0.contains_key(k) && keep(m0[k]) && exists|q: int| 0 <= q < i + 1 && #[trigger] es@[q].0@ == k);
            proof {
                assert(es@[i as int] == *e);
                assert(m0.contains_key(e.0@) && m0[e.0@] == e.1);
                assert(e.1.id@ == e.0@);
                assert(!done.contains(e.0@)) by {
                    if done.contains(e.0@) {
                        let q = choose|q: int| 0 <= q < i && #[trigger] es@[q].0@ == e.0@;
                        assert(es@[q] == es@[q]);
                    }
                }
                assert(next =~= done.insert(e.0@)) by {
                    assert forall|k: Seq<char>| next.contains(k) implies done.insert(e.0@).contains(k) by {
                        let q = choose|q: int| 0 <= q < i + 1 && #[trigger] es@[q].0@ == k;
                        if q < i {
                            assert(done.contains(k));
                        }
                    }
                }
            }
            let mut member = e.1.clone();
            let is_local = member.id.same(&self.local_node.id);
            let mut changed = false;
            let mut suspected = false;
            if !is_local && member.state != NodeState::Dead {
                match member.last_seen {
                    Some(last_seen) => {
                        let el = if now >= last_seen {
                            now - last_seen
                        } else {
                            0
                        };
                        if member.state == NodeState::Alive {
                            if el > SUSPECT_TIMEOUT_NS {
                                member.state = NodeState::Suspect;
                                suspected = true;
                                changed = true;
                            }
                        } else if member.state == NodeState::Suspect {
                            if el > DEAD_TIMEOUT_NS {
                                member.state = NodeState::Dead;
                                changed = true;
                            }
                        }
                    },
                    None => {
                        member.last_seen = Some(now);
                        changed = true;
                    },
                }
            }
            proof {
                assert(member == detect_node(e.1, local, now));
                assert(suspected == keep(e.1));
                assert(!changed ==> member == e.1);
            }
            if suspected {
                sus.push((e.1.id.clone(), e.1.incarnation));
                proof {
                    assert(!sdone.contains(e.0@));
                    lemma_lists_nodes_push(sus_nodes, m0, sdone, e.1);
                    sus_nodes = sus_nodes.push(e.1);
                    assert(sus@ =~= suspicion_of(sus_nodes));
                }
            }
            proof {
                assert(snext =~= if suspected { sdone.insert(e.0@) } else { sdone }) by {
                    assert forall|k: Seq<char>| snext.contains(k) implies (if suspected { sdone.insert(e.0@) } else { sdone }).contains(k) by {
                        let q = choose|q: int| 0 <= q < i + 1 && #[trigger] es@[q].0@ == k;
                        if q < i {
                            assert(sdone.contains(k));
                        } else {
                            assert(m0[k] == e.1);
                        }
                    }
                }
            }
            if changed {
                let key = e.0.clone();
                table_insert(&mut self.members, key, member);
            }
            proof {
                assert(self.view_map() =~= detect_partial(m0, local, now, next));
            }
            i = i + 1;
        }
        proof {
            let all = Set::new(|k: Seq<char>| exists|q: int| 0 <= q < n && #[trigger] es@[q].0@ == k);
            assert forall|k: Seq<char>| m0.contains_key(k) implies all.contains(k) by {
                let q = choose|q: int| #![trigger es@[q]] 0 <= q < es@.len() && es@[q].0@ == k;
                assert(es@[q].0@ == k);
            }
            assert(self.view_map() =~= detect_update(m0, local, now));
            assert(self.view_map().dom() =~= m0.dom());
            assert(Set::new(|k: Seq<char>| m0.contains_key(k) && keep(m0[k]) && exists|q: int| 0 <= q < n && #[trigger] es@[q].0@ == k) =~= kept_keys(m0, keep));
            assert(lists_nodes(sus_nodes, m0, keep));
        }
        let addrs = self.alive_peer_addrs();
        let ghost peers = choose|ns: Seq<Node>| lists_nodes(ns, self.view_map(), |n: Node| is_peer(n, self.local_id())) && addrs@ == addrs_of(ns);
        let mut out: Vec<Outbound> = Vec::new();
        let m = sus.len();
        let mut j: usize = 0;
        while j < m
            invariant
                m == sus@.len(),
                j <= m,
                out@ == broadcast_all(sus@.take(j as int), addrs@),
            decreases m - j,
        {
            let s = &sus[j];
            let ghost before = out@;
            let na = addrs.len();
            let mut a: usize = 0;
            while a < na
                invariant
                    na == addrs@.len(),
                    a <= na,
                    j < m,
                    m == sus@.len(),
                    out@ == before + notices(addrs@.take(a as int), suspect_msg(sus@[j as int])),
                    *s == sus@[j as int],
                decreases na - a,
            {
                out.push(
                    Outbound {
                        to: addrs[a],
                        message: GossipMessage::Suspect { node_id: s.0.clone(), incarnation: s.1 },
                    },
                );
                proof {
                    assert(notices(addrs@.take(a + 1), suspect_msg(sus@[j as int])) =~= notices(
                        addrs@.take(a as int),
                        suspect_msg(sus@[j as int]),
                    ).push(Outbound { to: addrs@[a as int], message: suspect_msg(sus@[j as int]) }));
                }
                a = a + 1;
            }
            proof {
                assert(addrs@.take(na as int) =~= addrs@);
                assert(sus@.take(j + 1).drop_last() =~= sus@.take(j as int));
                assert(sus@.take(j + 1).last() == sus@[j as int]);
            }
            j = j + 1;
        }
        proof {
            assert(sus@.take(m as int) =~= sus@);
            assert(out@ == broadcast_all(suspicion_of(sus_nodes), addrs_of(peers)));
        }
        out
    }

    /// A gossip probe: a `Ping` carrying the local incarnation, sent to one
    /// randomly chosen other member that is `Alive`; none when there is no
    /// such member.
    pub fn gossip_ping(&self) -> (out: Option<Outbound>)
        requires
            self.wf(),
        ensures
            out is None <==> kept_keys(self.view_map(), |n: Node| is_peer(n, self.local_id())).is_empty(),
            out matches Some(o) ==> (exists|k: Seq<char>|
                #[trigger] self.view_map().contains_key(k) && is_peer(self.view_map()[k], self.local_id())
                    && o.to == self.view_map()[k].gossip_addr) && o.message == (GossipMessage::Ping {
                from: self.local().id,
                incarnation: self.counter(),
            }),
    {
        let addrs = self.alive_peer_addrs();
        let ghost keys = kept_keys(self.view_map(), |n: Node| is_peer(n, self.local_id()));
        let ghost ns = choose|ns: Seq<Node>| lists_nodes(ns, self.view_map(), |n: Node| is_peer(n, self.local_id())) && addrs@ == addrs_of(ns);
        if addrs.len() == 0 {
            proof {
                assert(keys =~= Set::<Seq<char>>::empty()) by {
                    assert forall|k: Seq<char>| !keys.contains(k) by {
                        if keys.contains(k) {
                            let i = choose|i: int| #![trigger ns[i]] 0 <= i < ns.len() && ns[i].id@ == k;
                        }
                    }
                }
            }
            return None;
        }
        let idx = random_below(addrs.len());
        proof {
            assert(ns[idx as int] == ns[idx as int]);
            assert(keys.contains(ns[0].id@)) by {
                assert(ns[0] == ns[0]);
            }
            assert(self.view_map().contains_key(ns[idx as int].id@));
        }
        Some(
            Outbound {
                to: addrs[idx],
                message: GossipMessage::Ping {
                    from: self.local_node.id.clone(),
                    incarnation: self.incarnation,
                },
            },
        )
    }

    /// The requests to join the cluster: a `Join` carrying the local node,
    /// sent to each seed in order.
    pub fn join_requests(&self, seed_nodes: &Vec<NetAddr>) -> (out: Vec<Outbound>)
        ensures
            out@ == notices(seed_nodes@, GossipMessage::Join { node: self.local() }),
    {
        let mut out: Vec<Outbound> = Vec::new();
        let n = seed_nodes.len();
        let mut j: usize = 0;
        while j < n
            invariant
                n == seed_nodes@.len(),
                j <= n,
                out@ == notices(seed_nodes@.take(j as int), GossipMessage::Join { node: self.local_node }),
            decreases n - j,
        {
            out.push(
                Outbound { to: seed_nodes[j], message: GossipMessage::Join { node: self.local_node.clone() } },
            );
            proof {
                assert(notices(seed_nodes@.take(j + 1), GossipMessage::Join { node: self.local_node })
                    =~= notices(
                    seed_nodes@.take(j as int),
                    GossipMessage::Join { node: self.local_node },
                ).push(
                    Outbound { to: seed_nodes@[j as int], message: GossipMessage::Join { node: self.local_node } },
                ));
            }
            j = j + 1;
        }
        proof {
            assert(seed_nodes@.take(n as int) =~= seed_nodes@);
        }
        out
    }

    /// Handles one incoming gossip message from `src` and returns what to
    /// send in reply: an `Ack` for a `Ping`, an `Alive` broadcast when the
    /// local node refutes suspicion of itself, nothing otherwise.
    pub fn handle_message(&mut self, msg: GossipMessage, src: NetAddr, now: u64) -> (out: Vec<Outbound>)
        requires
            old(self).wf(),
            msg matches GossipMessage::Suspect { node_id, .. } && node_id@ == old(self).local_id() ==> old(
                self,
            ).counter() < u64::MAX,
            message_admissible(old(self).view_map(), msg, src),
        ensures
            final(self).wf(),
            final(self).view_map() == message_update(
                old(self).view_map(),
                old(self).local_id(),
                old(self).counter(),
                msg,
                src,
                now,
            ),
            final(self).counter() == message_counter(
                old(self).view_map(),
                old(self).local_id(),
                old(self).counter(),
                msg,
            ),
            final(self).local() == old(self).local(),
            match msg {
                GossipMessage::Ping { from, incarnation } => out@.len() == 1 && out@[0].to == src
                    && is_ack_of(out@[0].message, old(self).local().id, old(self).counter(), final(self).view_map()),
                GossipMessage::Suspect { node_id, incarnation } => if self_suspected(old(self).view_map(), old(self).local_id(), node_id@) {
                    exists|ns: Seq<Node>|
                        lists_nodes(ns, final(self).view_map(), |n: Node| is_peer(n, final(self).local_id()))
                            && out@ == notices(
                            addrs_of(ns),
                            GossipMessage::Alive { node_id: node_id, incarnation: final(self).counter() },
                        )
                } else {
                    out@.len() == 0
                },
                _ => out@.len() == 0,
            },
    {
        match msg {
            GossipMessage::Ping { from, incarnation } => {
                let reply = self.handle_ping(from, incarnation, src, now);
                let mut out = Vec::new();
                out.push(reply);
                out
            },
            GossipMessage::Ack { from, incarnation, members } => {
                self.handle_ack(from, incarnation, members, now);
                Vec::new()
            },
            GossipMessage::Join { node } => {
                self.handle_join(node, now);
                Vec::new()
            },
            GossipMessage::Suspect { node_id, incarnation } => {
                self.handle_suspect(node_id, incarnation, now)
            },
            GossipMessage::Alive { node_id, incarnation } => {
                self.handle_alive(node_id, incarnation, now);
                Vec::new()
            },
        }
    }
}

} // verus!
