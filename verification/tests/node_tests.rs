use gossip_core::config::GossipConfig;
use gossip_core::ids::PeerId;
use gossip_core::ids::TopicId;
use gossip_core::node::Action;
use gossip_core::node::Event;
use gossip_core::node::Node;
use gossip_core::node::PublishError;

fn peer(id: u64) -> PeerId {
    PeerId { id }
}

fn topic() -> TopicId {
    TopicId { id: 7 }
}

fn node(local: u64) -> Node {
    Node::new(peer(local), topic(), GossipConfig::chat_default())
}

/// Wires `a` and `b` as mutually discovered, connected subscribers and
/// runs one heartbeat on each, as local-network discovery would within
/// one discovery interval.
fn link(a: &mut Node, b: &mut Node) {
    a.on_peer_discovered(b.local_peer, vec!["10.0.0.2:4001".to_string()]);
    b.on_peer_discovered(a.local_peer, vec!["10.0.0.1:4001".to_string()]);
    a.on_peer_connected(b.local_peer);
    b.on_peer_connected(a.local_peer);
    a.on_peer_subscribed(b.local_peer);
    b.on_peer_subscribed(a.local_peer);
    a.heartbeat(0);
    b.heartbeat(0);
}

#[test]
fn two_nodes_exchange_hello_exactly_once() {
    let mut a = node(1);
    let mut b = node(2);
    link(&mut a, &mut b);
    assert!(a.registry.knows_peer(b.local_peer));
    assert!(b.registry.knows_peer(a.local_peer));

    let publication = a.publish(b"hello".to_vec(), 1).unwrap();
    assert!(publication.recipients.contains(&peer(2)));
    assert_eq!(publication.envelope.source, peer(1));
    assert_eq!(publication.envelope.payload, b"hello".to_vec());

    let out = b.receive(&publication.envelope, peer(1), true, 1);
    assert!(out.deliver);
    // a second arrival of the same message is not delivered again
    let again = b.receive(&publication.envelope, peer(1), true, 2);
    assert!(!again.deliver);
    assert!(again.forward_to.is_empty());
}

#[test]
fn duplicate_publish_is_a_no_op() {
    let mut a = node(1);
    let mut b = node(2);
    link(&mut a, &mut b);
    assert!(a.publish(b"dup".to_vec(), 1).is_ok());
    // the second publish within the time-to-live window is a no-op
    match a.publish(b"dup".to_vec(), 2) {
        Err(PublishError::Duplicate) => {},
        _ => panic!("expected a duplicate error"),
    }
}

#[test]
fn publish_after_ttl_goes_out_again() {
    let mut a = node(1);
    let mut b = node(2);
    link(&mut a, &mut b);
    assert!(a.publish(b"dup".to_vec(), 0).is_ok());
    // chat_default's seen_ttl is 120
    match a.publish(b"dup".to_vec(), 119) {
        Err(PublishError::Duplicate) => {},
        _ => panic!("expected a duplicate error inside the window"),
    }
    assert!(a.publish(b"dup".to_vec(), 120).is_ok());
}

#[test]
fn publish_without_mesh_peers_fails() {
    let mut a = node(1);
    match a.publish(b"into the void".to_vec(), 0) {
        Err(PublishError::NoMeshPeers) => {},
        _ => panic!("expected a no-mesh-peers error"),
    }
    // the failed publish did not mark the payload as seen
    let mut b = node(2);
    link(&mut a, &mut b);
    assert!(a.publish(b"into the void".to_vec(), 1).is_ok());
}

#[test]
fn invalid_signature_is_dropped_silently() {
    let mut a = node(1);
    let mut b = node(2);
    link(&mut a, &mut b);
    // node c forges a message towards b; the embedder's verifier says no
    let mut c = node(3);
    let mut d = node(4);
    link(&mut c, &mut d);
    let forged = c.publish(b"forged".to_vec(), 1).unwrap();
    let out = b.receive(&forged.envelope, peer(3), false, 2);
    assert!(!out.deliver);
    assert!(out.forward_to.is_empty());
    // the same message with a valid signature would have been delivered
    let out2 = b.receive(&forged.envelope, peer(3), true, 3);
    assert!(out2.deliver);
}

#[test]
fn wrong_topic_is_dropped_silently() {
    let mut a = node(1);
    let mut b = node(2);
    link(&mut a, &mut b);
    let publication = a.publish(b"hi".to_vec(), 1).unwrap();
    let mut envelope = publication.envelope;
    envelope.topic = TopicId { id: 99 };
    let out = b.receive(&envelope, peer(1), true, 1);
    assert!(!out.deliver);
    assert!(out.forward_to.is_empty());
}

#[test]
fn relays_never_echo_to_the_sender() {
    // b is meshed with both a and c; a message relayed by a must reach c
    // but never go back to a
    let mut a = node(1);
    let mut b = node(2);
    link(&mut a, &mut b);
    b.on_peer_discovered(peer(3), vec!["10.0.0.3:4001".to_string()]);
    b.on_peer_subscribed(peer(3));
    b.heartbeat(0);
    let publication = a.publish(b"hop".to_vec(), 1).unwrap();
    let out = b.receive(&publication.envelope, peer(1), true, 1);
    assert!(out.deliver);
    assert!(!out.forward_to.contains(&peer(1)));
    assert!(out.forward_to.contains(&peer(3)));
}

#[test]
fn dispatch_routes_terminal_input() {
    let mut a = node(1);
    let mut b = node(2);
    link(&mut a, &mut b);
    let action = a.handle_event(Event::InputLine { payload: b"line".to_vec() }, 1);
    match action {
        Some(Action::Route { envelope, to, deliver }) => {
            assert!(!deliver);
            assert_eq!(envelope.payload, b"line".to_vec());
            assert_eq!(envelope.source, peer(1));
            assert!(to.contains(&peer(2)));
        },
        _ => panic!("expected a route action"),
    }
}

#[test]
fn dispatch_reports_publish_errors() {
    let mut a = node(1);
    let action = a.handle_event(Event::InputLine { payload: b"line".to_vec() }, 1);
    match action {
        Some(Action::PublishFailed { reason }) => {
            assert_eq!(reason, PublishError::NoMeshPeers);
        },
        _ => panic!("expected a publish failure"),
    }
}

#[test]
fn dispatch_delivers_and_relays_received_messages() {
    let mut a = node(1);
    let mut b = node(2);
    link(&mut a, &mut b);
    let publication = a.publish(b"via dispatch".to_vec(), 1).unwrap();
    let action = b.handle_event(
        Event::MessageReceived { envelope: publication.envelope, from: peer(1), sig_valid: true },
        1,
    );
    match action {
        Some(Action::Route { envelope, to, deliver }) => {
            assert!(deliver);
            assert_eq!(envelope.payload, b"via dispatch".to_vec());
            assert!(!to.contains(&peer(1)));
        },
        _ => panic!("expected a route action"),
    }
}

#[test]
fn dispatch_ignores_invalid_signatures() {
    let mut a = node(1);
    let mut b = node(2);
    link(&mut a, &mut b);
    let publication = a.publish(b"bad sig".to_vec(), 1).unwrap();
    let action = b.handle_event(
        Event::MessageReceived { envelope: publication.envelope, from: peer(1), sig_valid: false },
        1,
    );
    assert!(action.is_none());
}

#[test]
fn dispatch_discovery_lifecycle_removes_peer() {
    let mut a = node(1);
    assert!(
        a.handle_event(
            Event::PeerDiscovered { peer: peer(5), addrs: vec!["10.0.0.5:4001".to_string()] },
            0,
        ).is_none()
    );
    assert!(a.registry.knows_peer(peer(5)));
    assert!(a.handle_event(Event::PeerExpired { peer: peer(5) }, 1).is_none());
    assert!(a.registry.knows_peer(peer(5)));
    // within one heartbeat the expired, unconnected peer is gone
    assert!(a.handle_event(Event::HeartbeatTick, 2).is_none());
    assert!(!a.registry.knows_peer(peer(5)));
}
