use gossip_core::ids::PeerId;
use gossip_core::registry::PeerRegistry;

fn peer(id: u64) -> PeerId {
    PeerId { id }
}

fn addrs(a: &str) -> Vec<String> {
    vec![a.to_string()]
}

#[test]
fn discovery_adds_explicit_peer() {
    let mut reg = PeerRegistry::new();
    assert!(!reg.knows_peer(peer(1)));
    reg.on_discovered(peer(1), addrs("10.0.0.1:4001"));
    assert!(reg.knows_peer(peer(1)));
    assert!(reg.peer_explicit(peer(1)));
    assert!(!reg.peer_expired(peer(1)));
    assert!(!reg.peer_connected(peer(1)));
}

#[test]
fn rediscovery_refreshes_without_duplicating() {
    let mut reg = PeerRegistry::new();
    reg.on_discovered(peer(1), addrs("10.0.0.1:4001"));
    reg.set_connected(peer(1), true);
    reg.on_expired(peer(1));
    assert!(!reg.peer_explicit(peer(1)));
    assert!(reg.peer_expired(peer(1)));
    reg.on_discovered(peer(1), addrs("10.0.0.1:4002"));
    assert!(reg.peer_explicit(peer(1)));
    assert!(!reg.peer_expired(peer(1)));
    // the connection state survives a refresh
    assert!(reg.peer_connected(peer(1)));
}

#[test]
fn expiry_downgrades_but_keeps_entry() {
    let mut reg = PeerRegistry::new();
    reg.on_discovered(peer(1), addrs("10.0.0.1:4001"));
    reg.on_expired(peer(1));
    assert!(reg.knows_peer(peer(1)));
    assert!(!reg.peer_explicit(peer(1)));
    assert!(reg.peer_expired(peer(1)));
}

#[test]
fn sweep_removes_expired_unconnected_peers() {
    let mut reg = PeerRegistry::new();
    reg.on_discovered(peer(1), addrs("10.0.0.1:4001"));
    reg.on_discovered(peer(2), addrs("10.0.0.2:4001"));
    reg.on_expired(peer(1));
    reg.sweep();
    assert!(!reg.knows_peer(peer(1)));
    assert!(reg.knows_peer(peer(2)));
}

#[test]
fn sweep_spares_connected_and_explicit_peers() {
    let mut reg = PeerRegistry::new();
    reg.on_discovered(peer(1), addrs("10.0.0.1:4001"));
    reg.on_discovered(peer(2), addrs("10.0.0.2:4001"));
    reg.set_connected(peer(1), true);
    reg.on_expired(peer(1));
    reg.sweep();
    // expired but still holding a live connection: kept
    assert!(reg.knows_peer(peer(1)));
    // explicit and never expired: kept
    assert!(reg.knows_peer(peer(2)));
    reg.set_connected(peer(1), false);
    reg.sweep();
    assert!(!reg.knows_peer(peer(1)));
}

#[test]
fn unknown_peers_are_ignored() {
    let mut reg = PeerRegistry::new();
    reg.on_expired(peer(9));
    reg.set_connected(peer(9), true);
    assert!(!reg.knows_peer(peer(9)));
    reg.sweep();
    assert!(!reg.knows_peer(peer(9)));
}
