use gossip_core::config::ConfigError;
use gossip_core::config::GossipConfig;

#[test]
fn chat_default_values() {
    let c = GossipConfig::chat_default();
    assert_eq!(c.mesh_low, 5);
    assert_eq!(c.mesh_target, 6);
    assert_eq!(c.mesh_high, 12);
    assert_eq!(c.heartbeat_interval, 10);
    assert_eq!(c.seen_ttl, 120);
}

#[test]
fn new_accepts_ordered_watermarks() {
    let c = GossipConfig::new(2, 3, 4, 7, 30).unwrap();
    assert_eq!(c.mesh_low, 2);
    assert_eq!(c.mesh_target, 3);
    assert_eq!(c.mesh_high, 4);
    assert_eq!(c.heartbeat_interval, 7);
    assert_eq!(c.seen_ttl, 30);
    assert!(GossipConfig::new(1, 1, 1, 1, 1).is_ok());
}

#[test]
fn new_rejects_bad_mesh_bounds() {
    assert_eq!(GossipConfig::new(0, 3, 4, 7, 30), Err(ConfigError::InvalidMeshBounds));
    assert_eq!(GossipConfig::new(4, 3, 4, 7, 30), Err(ConfigError::InvalidMeshBounds));
    assert_eq!(GossipConfig::new(2, 5, 4, 7, 30), Err(ConfigError::InvalidMeshBounds));
}

#[test]
fn new_rejects_zero_intervals() {
    assert_eq!(GossipConfig::new(2, 3, 4, 0, 30), Err(ConfigError::ZeroHeartbeatInterval));
    assert_eq!(GossipConfig::new(2, 3, 4, 7, 0), Err(ConfigError::ZeroSeenTtl));
    // watermark errors take precedence
    assert_eq!(GossipConfig::new(0, 3, 4, 0, 0), Err(ConfigError::InvalidMeshBounds));
}
