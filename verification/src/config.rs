//! Configuration of the gossip core: mesh watermarks, heartbeat cadence
//! and the deduplication time-to-live window.

use vstd::prelude::*;

verus! {

/// Why a configuration was rejected.
#[derive(Clone, Copy, Debug, PartialEq, Eq, Structural)]
pub enum ConfigError {
    /// The mesh watermarks do not satisfy `0 < low <= target <= high`.
    InvalidMeshBounds,
    /// The heartbeat interval is zero.
    ZeroHeartbeatInterval,
    /// The seen-cache time-to-live is zero.
    ZeroSeenTtl,
}

/// Tuning values for one gossip node. Mesh maintenance keeps each topic
/// mesh between the low and high watermark and steers it towards the
/// target; the heartbeat interval is the cadence of that maintenance, and
/// the seen time-to-live bounds how long a message identifier suppresses
/// duplicates.
#[derive(Clone, Copy, Debug, PartialEq, Eq, Structural)]
pub struct GossipConfig {
    pub mesh_low: usize,
    pub mesh_target: usize,
    pub mesh_high: usize,
    pub heartbeat_interval: u64,
    pub seen_ttl: u64,
}

impl GossipConfig {
    /// A usable configuration: ordered positive watermarks and positive
    /// intervals.
    pub open spec fn wf(self) -> bool {
        &&& 0 < self.mesh_low <= self.mesh_target <= self.mesh_high
        &&& 0 < self.heartbeat_interval
        &&& 0 < self.seen_ttl
    }

    /// Validates and builds a configuration; reports exactly which value
    /// is unusable, watermarks checked first, then the heartbeat interval,
    /// then the time-to-live.
    pub fn new(
        mesh_low: usize,
        mesh_target: usize,
        mesh_high: usize,
        heartbeat_interval: u64,
        seen_ttl: u64,
    ) -> (r: Result<GossipConfig, ConfigError>)
        ensures
            r matches Ok(c) ==> c == (GossipConfig {
                mesh_low,
                mesh_target,
                mesh_high,
                heartbeat_interval,
                seen_ttl,
            }) && c.wf(),
            r is Ok <==> (0 < mesh_low <= mesh_target <= mesh_high && 0 < heartbeat_interval && 0
                < seen_ttl),
            r matches Err(e) ==> (e == ConfigError::InvalidMeshBounds <==> !(0 < mesh_low
                <= mesh_target <= mesh_high)),
            r == Err::<GossipConfig, ConfigError>(ConfigError::ZeroHeartbeatInterval) <==> (0
                < mesh_low <= mesh_target <= mesh_high && heartbeat_interval == 0),
            r == Err::<GossipConfig, ConfigError>(ConfigError::ZeroSeenTtl) <==> (0 < mesh_low
                <= mesh_target <= mesh_high && 0 < heartbeat_interval && seen_ttl == 0),
    {
        if mesh_low == 0 || mesh_low > mesh_target || mesh_target > mesh_high {
            Err(ConfigError::InvalidMeshBounds)
        } else if heartbeat_interval == 0 {
            Err(ConfigError::ZeroHeartbeatInterval)
        } else if seen_ttl == 0 {
            Err(ConfigError::ZeroSeenTtl)
        } else {
            Ok(GossipConfig { mesh_low, mesh_target, mesh_high, heartbeat_interval, seen_ttl })
        }
    }

    /// The values a terminal chat node starts with: a deliberately long
    /// heartbeat so maintenance is easy to observe, and a time-to-live
    /// that outlasts several heartbeats of network-wide propagation delay.
    pub fn chat_default() -> (c: GossipConfig)
        ensures
            c.wf(),
            c == (GossipConfig {
                mesh_low: 5,
                mesh_target: 6,
                mesh_high: 12,
                heartbeat_interval: 10,
                seen_ttl: 120,
            }),
    {
        GossipConfig { mesh_low: 5, mesh_target: 6, mesh_high: 12, heartbeat_interval: 10, seen_ttl: 120 }
    }
}

} // verus!
