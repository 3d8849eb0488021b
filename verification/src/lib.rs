//! A single-topic gossip broadcast core: content-addressed message
//! deduplication, a peer registry fed by local-network discovery events,
//! and a per-topic mesh router with heartbeat-driven graft/prune
//! maintenance. The embedder supplies transport, cryptographic signing
//! and an event loop; this crate makes every routing decision.

pub mod config;
pub mod dedup;
pub mod ids;
pub mod node;
pub mod registry;
pub mod router;
