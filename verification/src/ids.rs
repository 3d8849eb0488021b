//! Plain-value identifiers used throughout the core.
//!
//! A node's true identity is derived from its public key by the embedder;
//! the core only ever compares identities for equality, so it carries them
//! as opaque 64-bit handles. Topic names are likewise interned to handles
//! by the embedder.

use vstd::prelude::*;

verus! {

/// Opaque, globally unique identifier for a node. Equality by value.
#[derive(Clone, Copy, Debug, Hash, PartialEq, Eq, Structural)]
pub struct PeerId {
    pub id: u64,
}

/// Handle for a broadcast channel name, interned by the embedder.
#[derive(Clone, Copy, Debug, Hash, PartialEq, Eq, Structural)]
pub struct TopicId {
    pub id: u64,
}

/// Content-derived identifier of a message payload: byte-identical
/// payloads collapse to the same identifier regardless of sender.
#[derive(Clone, Copy, Debug, Hash, PartialEq, Eq, Structural)]
pub struct MessageId {
    pub hash: u64,
}

} // verus!
