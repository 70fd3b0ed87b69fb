//! Membership data: node identities, addresses, states and gossip messages.

use vstd::prelude::*;

use crate::sys::uuid_v4_string;

verus! {

/// Unique identifier of a node: a UUID string, stable for the life of the
/// process.
#[derive(Debug, PartialEq, Eq, Hash)]
pub struct NodeId(pub String);

impl View for NodeId {
    type V = Seq<char>;

    open spec fn view(&self) -> Seq<char> {
        self.0@
    }
}

impl Clone for NodeId {
    fn clone(&self) -> (r: Self)
        ensures
            r == *self,
    {
        NodeId(self.0.clone())
    }
}

impl NodeId {
    /// A fresh random identifier.
    pub fn new() -> (id: Self)
        ensures
            id@.len() == 36,
    {
        NodeId(uuid_v4_string())
    }

    /// Identity comparison by the identifier text.
    pub fn same(&self, other: &NodeId) -> (b: bool)
        ensures
            b == (self@ == other@),
    {
        self.0 == other.0
    }
}

/// Health of a node as seen by the local failure detector.
#[derive(Clone, Copy, Debug, PartialEq, Eq, Structural)]
pub enum NodeState {
    /// Healthy and responsive.
    Alive,
    /// Missed the heartbeat window; may be refuted or may become `Dead`.
    Suspect,
    /// Confirmed failed.
    Dead,
}

/// An IP address, as the number that its octets spell.
#[derive(Clone, Copy, Debug, PartialEq, Eq, Structural)]
pub enum IpAddress {
    V4(u32),
    V6(u128),
}

/// A socket address: IP address and port.
#[derive(Clone, Copy, Debug, PartialEq, Eq, Structural)]
pub struct NetAddr {
    pub ip: IpAddress,
    pub port: u16,
}

/// Offset between a node's gossip (UDP) port and its HTTP port.
pub const HTTP_PORT_OFFSET: u16 = 1000;

/// The HTTP address that goes with a gossip address: same IP, port + 1000.
pub open spec fn http_addr_of(gossip: NetAddr) -> NetAddr {
    NetAddr { ip: gossip.ip, port: (gossip.port + HTTP_PORT_OFFSET) as u16 }
}

/// Whether the HTTP port of a gossip address fits in a port number.
pub open spec fn http_port_fits(gossip: NetAddr) -> bool {
    gossip.port + HTTP_PORT_OFFSET <= u16::MAX
}

impl NetAddr {
    /// The HTTP address that goes with this gossip address.
    pub fn http_companion(&self) -> (r: NetAddr)
        requires
            http_port_fits(*self),
        ensures
            r == http_addr_of(*self),
    {
        NetAddr { ip: self.ip, port: self.port + HTTP_PORT_OFFSET }
    }
}

/// One member of the cluster.
///
/// `incarnation` is a logical clock for the node's own state: a higher
/// number always takes precedence. `last_seen` is a local timestamp in
/// nanoseconds of when the node was last heard from; it never travels on
/// the wire.
#[derive(Debug)]
pub struct Node {
    pub id: NodeId,
    pub gossip_addr: NetAddr,
    pub http_addr: NetAddr,
    pub state: NodeState,
    pub incarnation: u64,
    pub last_seen: Option<u64>,
}

impl Clone for Node {
    fn clone(&self) -> (r: Self)
        ensures
            r == *self,
    {
        Node {
            id: self.id.clone(),
            gossip_addr: self.gossip_addr,
            http_addr: self.http_addr,
            state: self.state,
            incarnation: self.incarnation,
            last_seen: self.last_seen,
        }
    }
}

/// The gossip wire protocol.
#[derive(Debug)]
pub enum GossipMessage {
    /// A direct health check, carrying the sender's incarnation.
    Ping { from: NodeId, incarnation: u64 },
    /// The answer to a ping, carrying the responder's view of the cluster.
    Ack { from: NodeId, incarnation: u64, members: Vec<Node> },
    /// A request of a new node to enter the cluster.
    Join { node: Node },
    /// A report that a node is suspected to be down.
    Suspect { node_id: NodeId, incarnation: u64 },
    /// A report that a node is alive (used to refute suspicion).
    Alive { node_id: NodeId, incarnation: u64 },
}

/// A message to send, and where to.
#[derive(Debug)]
pub struct Outbound {
    pub to: NetAddr,
    pub message: GossipMessage,
}

} // verus!
