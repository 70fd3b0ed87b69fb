use distributed_cluster::membership::service::MembershipService;
use distributed_cluster::membership::types::{
    GossipMessage, IpAddress, NetAddr, Node, NodeId, NodeState,
};

fn addr(port: u16) -> NetAddr {
    NetAddr { ip: IpAddress::V4(0x7f00_0001), port }
}

fn id(s: &str) -> NodeId {
    NodeId(s.to_string())
}

fn node(name: &str, port: u16, state: NodeState, incarnation: u64) -> Node {
    Node {
        id: id(name),
        gossip_addr: addr(port),
        http_addr: addr(port + 1000),
        state,
        incarnation,
        last_seen: None,
    }
}

fn service(name: &str) -> MembershipService {
    MembershipService::new(id(name), addr(5000), 0)
}

#[test]
fn test_membership_creation() {
    let service = MembershipService::new(NodeId::new(), addr(0), 0);

    assert_eq!(service.member_count(), 1);

    let members = service.get_alive_members();
    assert_eq!(members.len(), 1);
    assert_eq!(members[0].state, NodeState::Alive);
}

#[test]
fn new_service_derives_http_port_and_starts_at_incarnation_one() {
    let s = service("local");
    assert_eq!(s.local_node.http_addr, addr(6000));
    assert_eq!(s.local_node.incarnation, 1);
    assert_eq!(s.incarnation(), 1);
    assert_eq!(s.local_node.last_seen, Some(0));
}

#[test]
fn ping_from_unknown_node_adds_it_and_acks_with_all_members() {
    let mut s = service("local");
    let out = s.handle_message(
        GossipMessage::Ping { from: id("peer"), incarnation: 7 },
        addr(5001),
        100,
    );
    let peer = s.get_member(&id("peer")).unwrap();
    assert_eq!(peer.state, NodeState::Alive);
    assert_eq!(peer.incarnation, 7);
    assert_eq!(peer.gossip_addr, addr(5001));
    assert_eq!(peer.http_addr, addr(6001));
    assert_eq!(peer.last_seen, Some(100));
    assert_eq!(out.len(), 1);
    assert_eq!(out[0].to, addr(5001));
    match &out[0].message {
        GossipMessage::Ack { from, incarnation, members } => {
            assert_eq!(from.0, "local");
            assert_eq!(*incarnation, 1);
            assert_eq!(members.len(), 2);
        }
        other => panic!("expected an ack, got {:?}", other),
    }
}

#[test]
fn ping_from_known_node_only_raises_incarnation() {
    let mut s = service("local");
    s.handle_join(node("peer", 5001, NodeState::Suspect, 5), 10);
    s.handle_ping(id("peer"), 3, addr(9999), 20);
    let p = s.get_member(&id("peer")).unwrap();
    assert_eq!(p.incarnation, 5);
    assert_eq!(p.state, NodeState::Suspect);
    assert_eq!(p.gossip_addr, addr(5001));
    assert_eq!(p.last_seen, Some(20));
    s.handle_ping(id("peer"), 9, addr(5001), 30);
    assert_eq!(s.get_member(&id("peer")).unwrap().incarnation, 9);
}

#[test]
fn ack_from_dead_node_is_ignored_entirely() {
    let mut s = service("local");
    s.handle_join(node("dead", 5002, NodeState::Dead, 1), 0);
    s.handle_ack(id("dead"), 5, vec![node("new", 5003, NodeState::Alive, 1)], 50);
    assert!(s.get_member(&id("new")).is_none());
    assert_eq!(s.get_member(&id("dead")).unwrap().incarnation, 1);
}

#[test]
fn ack_merges_members_by_incarnation() {
    let mut s = service("local");
    s.handle_join(node("a", 5001, NodeState::Alive, 3), 0);
    s.handle_join(node("b", 5002, NodeState::Dead, 1), 0);
    s.handle_ack(
        id("a"),
        3,
        vec![
            node("a", 7001, NodeState::Suspect, 2),
            node("b", 5002, NodeState::Alive, 9),
            node("c", 5003, NodeState::Alive, 4),
            node("d", 5004, NodeState::Dead, 4),
        ],
        70,
    );
    let a = s.get_member(&id("a")).unwrap();
    assert_eq!(a.state, NodeState::Alive);
    assert_eq!(a.incarnation, 3);
    assert_eq!(s.get_member(&id("b")).unwrap().state, NodeState::Dead);
    let c = s.get_member(&id("c")).unwrap();
    assert_eq!(c.last_seen, Some(70));
    assert!(s.get_member(&id("d")).is_none());

    s.handle_ack(id("a"), 3, vec![node("a", 7001, NodeState::Suspect, 8)], 80);
    let a = s.get_member(&id("a")).unwrap();
    assert_eq!(a.state, NodeState::Suspect);
    assert_eq!(a.incarnation, 8);
    assert_eq!(a.gossip_addr, addr(5001));
}

#[test]
fn suspicion_of_another_node_needs_at_least_its_incarnation() {
    let mut s = service("local");
    s.handle_join(node("peer", 5001, NodeState::Alive, 4), 0);
    // An older incarnation is old news.
    let out = s.handle_suspect(id("peer"), 3, 10);
    assert!(out.is_empty());
    assert_eq!(s.get_member(&id("peer")).unwrap().state, NodeState::Alive);
    // The incarnation on record (what the failure detector announces) applies.
    let out = s.handle_suspect(id("peer"), 4, 10);
    assert!(out.is_empty());
    let p = s.get_member(&id("peer")).unwrap();
    assert_eq!(p.state, NodeState::Suspect);
    assert_eq!(p.incarnation, 4);
    s.handle_suspect(id("peer"), 5, 10);
    assert_eq!(s.get_member(&id("peer")).unwrap().incarnation, 5);
}

#[test]
fn suspicion_of_self_at_current_incarnation_is_refuted() {
    let mut s = service("local");
    s.handle_join(node("a", 5001, NodeState::Alive, 1), 0);
    let out = s.handle_suspect(id("local"), 1, 10);
    assert_eq!(s.incarnation(), 2);
    let me = s.get_member(&id("local")).unwrap();
    assert_eq!(me.state, NodeState::Alive);
    assert_eq!(me.incarnation, 2);
    assert_eq!(out.len(), 1);
    assert_eq!(out[0].to, addr(5001));
}

#[test]
fn ack_marks_its_sender_alive() {
    let mut s = service("local");
    s.handle_join(node("peer", 5001, NodeState::Suspect, 3), 0);
    s.handle_ack(id("peer"), 3, vec![], 50);
    let p = s.get_member(&id("peer")).unwrap();
    assert_eq!(p.state, NodeState::Alive);
    assert_eq!(p.incarnation, 3);
    assert_eq!(p.last_seen, Some(50));
}

#[test]
fn suspicion_of_self_is_refuted_and_broadcast() {
    let mut s = service("local");
    s.handle_join(node("a", 5001, NodeState::Alive, 1), 0);
    s.handle_join(node("b", 5002, NodeState::Suspect, 1), 0);
    s.handle_join(node("c", 5003, NodeState::Alive, 1), 0);
    let out = s.handle_suspect(id("local"), 2, 40);
    assert_eq!(s.incarnation(), 2);
    let me = s.get_member(&id("local")).unwrap();
    assert_eq!(me.state, NodeState::Alive);
    assert_eq!(me.incarnation, 2);
    // Every other live member is told, each once, in the table's order.
    let mut ports: Vec<u16> = out.iter().map(|o| o.to.port).collect();
    ports.sort();
    assert_eq!(ports, vec![5001, 5003]);
    for o in &out {
        match &o.message {
            GossipMessage::Alive { node_id, incarnation } => {
                assert_eq!(node_id.0, "local");
                assert_eq!(*incarnation, 2);
            }
            other => panic!("expected alive, got {:?}", other),
        }
    }
}

#[test]
fn alive_with_equal_incarnation_refutes_suspicion() {
    let mut s = service("local");
    s.handle_join(node("peer", 5001, NodeState::Suspect, 6), 0);
    s.handle_alive(id("peer"), 6, 10);
    assert_eq!(s.get_member(&id("peer")).unwrap().state, NodeState::Alive);
    s.handle_alive(id("peer"), 5, 10);
    assert_eq!(s.get_member(&id("peer")).unwrap().incarnation, 6);
}

#[test]
fn dead_node_ignores_alive_and_suspect() {
    let mut s = service("local");
    s.handle_join(node("peer", 5001, NodeState::Dead, 1), 0);
    s.handle_alive(id("peer"), 99, 10);
    s.handle_suspect(id("peer"), 99, 10);
    let p = s.get_member(&id("peer")).unwrap();
    assert_eq!(p.state, NodeState::Dead);
    assert_eq!(p.incarnation, 1);
}

#[test]
fn join_replaces_what_was_known() {
    let mut s = service("local");
    s.handle_join(node("peer", 5001, NodeState::Dead, 9), 0);
    s.handle_join(node("peer", 5005, NodeState::Alive, 1), 30);
    let p = s.get_member(&id("peer")).unwrap();
    assert_eq!(p.state, NodeState::Alive);
    assert_eq!(p.incarnation, 1);
    assert_eq!(p.gossip_addr, addr(5005));
    assert_eq!(p.last_seen, Some(30));
}

#[test]
fn failure_detector_ages_nodes_one_step_per_tick() {
    let mut s = service("local");
    let ms: u64 = 1_000_000;
    s.handle_join(node("a", 5001, NodeState::Alive, 1), 1000 * ms);
    s.handle_join(node("b", 5002, NodeState::Alive, 1), 1000 * ms);
    s.handle_ping(id("b"), 1, addr(5002), 5000 * ms);

    // Exactly five seconds after a's last contact: not yet suspected.
    let out = s.detect_failures(6000 * ms);
    assert!(out.is_empty());

    // One nanosecond more: a is suspected and announced to the other live member, b.
    let out = s.detect_failures(6000 * ms + 1);
    assert_eq!(s.get_member(&id("a")).unwrap().state, NodeState::Suspect);
    assert_eq!(s.get_member(&id("b")).unwrap().state, NodeState::Alive);
    assert_eq!(out.len(), 1);
    assert_eq!(out[0].to, addr(5002));
    match &out[0].message {
        GossipMessage::Suspect { node_id, incarnation } => {
            assert_eq!(node_id.0, "a");
            assert_eq!(*incarnation, 1);
        }
        other => panic!("expected suspect, got {:?}", other),
    }

    // The local node is never aged.
    assert_eq!(s.get_member(&id("local")).unwrap().state, NodeState::Alive);

    // More than ten seconds: the suspect is declared dead.
    s.detect_failures(11001 * ms);
    assert_eq!(s.get_member(&id("a")).unwrap().state, NodeState::Dead);
    assert_eq!(s.get_member(&id("b")).unwrap().state, NodeState::Suspect);
}

#[test]
fn gossip_targets_only_other_live_members() {
    let mut s = service("local");
    assert!(s.gossip_ping().is_none());
    s.handle_join(node("dead", 5001, NodeState::Dead, 1), 0);
    s.handle_join(node("sus", 5002, NodeState::Suspect, 1), 0);
    assert!(s.gossip_ping().is_none());
    s.handle_join(node("live", 5003, NodeState::Alive, 1), 0);
    for _ in 0..10 {
        let o = s.gossip_ping().unwrap();
        assert_eq!(o.to, addr(5003));
        match o.message {
            GossipMessage::Ping { from, incarnation } => {
                assert_eq!(from.0, "local");
                assert_eq!(incarnation, 1);
            }
            other => panic!("expected ping, got {:?}", other),
        }
    }
}

#[test]
fn join_requests_go_to_every_seed() {
    let s = service("local");
    let out = s.join_requests(&vec![addr(1), addr(2)]);
    assert_eq!(out.len(), 2);
    assert_eq!(out[1].to, addr(2));
    match &out[0].message {
        GossipMessage::Join { node } => assert_eq!(node.id.0, "local"),
        other => panic!("expected join, got {:?}", other),
    }
}

#[test]
fn alive_members_are_listed_once_each() {
    let mut s = service("local");
    s.handle_join(node("x", 5001, NodeState::Alive, 1), 0);
    s.handle_join(node("y", 5002, NodeState::Dead, 1), 0);
    s.handle_join(node("z", 5003, NodeState::Alive, 1), 0);
    let mut names: Vec<String> = s.get_alive_members().into_iter().map(|n| n.id.0).collect();
    names.sort();
    assert_eq!(names, vec!["local".to_string(), "x".to_string(), "z".to_string()]);
    let mut all: Vec<String> = s.all_members().into_iter().map(|n| n.id.0).collect();
    all.sort();
    assert_eq!(all, vec!["local".to_string(), "x".to_string(), "y".to_string(), "z".to_string()]);
}
