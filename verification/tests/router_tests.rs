use gossip_core::config::GossipConfig;
use gossip_core::ids::PeerId;
use gossip_core::ids::TopicId;
use gossip_core::router::Router;

fn peer(id: u64) -> PeerId {
    PeerId { id }
}

fn small_config() -> GossipConfig {
    // low 2, target 3, high 4
    GossipConfig::new(2, 3, 4, 10, 100).unwrap()
}

fn router() -> Router {
    Router::new(TopicId { id: 7 }, &small_config())
}

#[test]
fn subscribe_then_heartbeat_grafts() {
    let mut r = router();
    r.on_subscribe(peer(1));
    assert!(r.is_subscribed(peer(1)));
    assert!(!r.is_mesh_member(peer(1)));
    r.heartbeat();
    // the only candidate is grafted even though the target is out of reach
    assert!(r.is_mesh_member(peer(1)));
    assert_eq!(r.open_mesh_size(), 1);
}

#[test]
fn heartbeat_stops_at_target() {
    let mut r = router();
    for id in 1..=10u64 {
        r.on_subscribe(peer(id));
    }
    r.heartbeat();
    let size = r.open_mesh_size();
    assert_eq!(size, 3);
    assert!(size >= 2 && size <= 4);
    assert_eq!(r.open_sub_size(), 10);
}

#[test]
fn heartbeat_prunes_over_high_watermark() {
    let mut r = router();
    // six explicit subscribed peers are all grafted
    for id in 1..=6u64 {
        r.on_subscribe(peer(id));
        r.add_explicit_peer(peer(id));
    }
    r.heartbeat();
    assert_eq!(r.open_mesh_size(), 0);
    for id in 1..=6u64 {
        assert!(r.is_mesh_member(peer(id)));
    }
    // once they lose explicit standing the open mesh is over the high
    // watermark and is pruned back to the target
    for id in 1..=6u64 {
        r.remove_explicit_peer(peer(id));
    }
    assert_eq!(r.open_mesh_size(), 6);
    r.heartbeat();
    assert_eq!(r.open_mesh_size(), 3);
}

#[test]
fn explicit_peers_are_never_pruned() {
    let mut r = router();
    r.on_subscribe(peer(42));
    r.add_explicit_peer(peer(42));
    for id in 1..=6u64 {
        r.on_subscribe(peer(id));
    }
    r.heartbeat();
    assert!(r.is_mesh_member(peer(42)));
    // force a prune round: everyone else loses nothing, but the mesh is
    // over the high watermark only if all six were grafted; graft stops at
    // the target, so grow the open mesh by removing explicit standing from
    // freshly grafted explicit peers instead
    for id in 10..=16u64 {
        r.on_subscribe(peer(id));
        r.add_explicit_peer(peer(id));
    }
    r.heartbeat();
    for id in 10..=16u64 {
        r.remove_explicit_peer(peer(id));
    }
    assert!(r.open_mesh_size() > 4);
    r.heartbeat();
    assert!(r.open_mesh_size() <= 4);
    assert!(r.is_mesh_member(peer(42)));
}

#[test]
fn unsubscribe_leaves_mesh_immediately() {
    let mut r = router();
    r.on_subscribe(peer(1));
    r.heartbeat();
    assert!(r.is_mesh_member(peer(1)));
    r.on_unsubscribe(peer(1));
    assert!(!r.is_mesh_member(peer(1)));
    assert!(!r.is_subscribed(peer(1)));
}

#[test]
fn disconnect_forgets_peer() {
    let mut r = router();
    r.on_subscribe(peer(1));
    r.add_explicit_peer(peer(1));
    r.heartbeat();
    assert!(r.is_mesh_member(peer(1)));
    r.on_disconnect(peer(1));
    assert!(!r.is_mesh_member(peer(1)));
    assert!(!r.is_subscribed(peer(1)));
    assert!(!r.is_explicit_peer(peer(1)));
}

#[test]
fn mesh_targets_excludes_given_peer() {
    let mut r = router();
    for id in 1..=3u64 {
        r.on_subscribe(peer(id));
    }
    r.heartbeat();
    let all = r.mesh_targets(None);
    assert_eq!(all.len(), 3);
    let without_two = r.mesh_targets(Some(peer(2)));
    assert_eq!(without_two.len(), 2);
    assert!(!without_two.contains(&peer(2)));
    assert!(without_two.contains(&peer(1)));
    assert!(without_two.contains(&peer(3)));
}

#[test]
fn mesh_only_holds_subscribers() {
    let mut r = router();
    r.add_explicit_peer(peer(1));
    r.heartbeat();
    // explicit but not subscribed: forwarded to only once it subscribes
    assert!(!r.is_mesh_member(peer(1)));
    r.on_subscribe(peer(1));
    r.heartbeat();
    assert!(r.is_mesh_member(peer(1)));
}

#[test]
fn mesh_delta_lists_graft_and_prune_targets() {
    let mut r = router();
    for id in 1..=3u64 {
        r.on_subscribe(peer(id));
    }
    let before = r.mesh_targets(None);
    assert!(before.is_empty());
    r.heartbeat();
    let after = r.mesh_targets(None);
    let grafted = gossip_core::router::mesh_delta(&before, &after);
    assert_eq!(grafted.len(), 3);
    r.on_unsubscribe(peer(2));
    let final_mesh = r.mesh_targets(None);
    let pruned = gossip_core::router::mesh_delta(&final_mesh, &after);
    assert_eq!(pruned, vec![peer(2)]);
    assert!(gossip_core::router::contains_peer_id(&after, peer(2)));
    assert!(!gossip_core::router::contains_peer_id(&final_mesh, peer(2)));
}

#[test]
fn heartbeat_within_watermarks_changes_nothing() {
    let mut r = router();
    for id in 1..=3u64 {
        r.on_subscribe(peer(id));
    }
    r.heartbeat();
    assert_eq!(r.open_mesh_size(), 3);
    // more candidates appear, but the mesh already sits inside [low, high]:
    // membership is left exactly as it is
    for id in 4..=9u64 {
        r.on_subscribe(peer(id));
    }
    r.heartbeat();
    assert_eq!(r.open_mesh_size(), 3);
    for id in 1..=3u64 {
        assert!(r.is_mesh_member(peer(id)));
    }
    for id in 4..=9u64 {
        assert!(!r.is_mesh_member(peer(id)));
    }
}

#[test]
fn mesh_size_counts_explicit_members_too() {
    let mut r = router();
    for id in 1..=4u64 {
        r.on_subscribe(peer(id));
    }
    r.on_subscribe(peer(42));
    r.add_explicit_peer(peer(42));
    r.heartbeat();
    // the open mesh reaches the target; the explicit member sits on top
    assert_eq!(r.open_mesh_size(), 3);
    assert_eq!(r.mesh_size(), 4);
    assert!(r.mesh_size() >= 2);
}
