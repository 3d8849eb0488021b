//! One gossip node: the explicitly constructed context object holding the
//! router, the peer registry, the seen cache and the local identity, and
//! the single dispatch point that consumes tagged events.
//!
//! The embedder runs the event loop: it reads terminal lines, drives
//! discovery and the transport, verifies signatures, and hands each
//! ready event to [`Node::handle_event`], one per iteration; the returned
//! action says what to send and what to deliver locally. All state
//! mutation happens inside these calls, on the caller's single thread.

use crate::config::GossipConfig;
use crate::dedup::id_of;
use crate::dedup::identify;
use crate::dedup::SeenCache;
use crate::ids::MessageId;
use crate::ids::PeerId;
use crate::ids::TopicId;
use crate::registry::PeerRegistry;
use crate::router::Router;
use vstd::prelude::*;

verus! {

/// Wire message envelope. The signature over payload and topic is carried
/// and checked by the embedder's signer capability; `receive` is told the
/// verdict.
#[derive(Debug)]
pub struct Envelope {
    pub topic: TopicId,
    pub payload: Vec<u8>,
    pub source: PeerId,
    /// Sequence marker, informational only: deduplication is by content.
    pub seq: u64,
}

/// Why a local publish did not go out.
#[derive(Clone, Copy, Debug, PartialEq, Eq, Structural)]
pub enum PublishError {
    /// The payload's identifier is still in the seen cache.
    Duplicate,
    /// The topic mesh has no member to forward to.
    NoMeshPeers,
}

/// A successful publish: the signed-to-be envelope and who receives it.
#[derive(Debug)]
pub struct Publication {
    pub envelope: Envelope,
    pub recipients: Vec<PeerId>,
}

/// What to do with a received message: deliver it to the local
/// application, and relay it to the listed mesh peers.
#[derive(Debug)]
pub struct RecvOutcome {
    pub deliver: bool,
    pub forward_to: Vec<PeerId>,
}

/// One gossip node's state.
pub struct Node {
    pub local_peer: PeerId,
    pub config: GossipConfig,
    pub router: Router,
    pub registry: PeerRegistry,
    pub seen: SeenCache,
    /// Sequence marker for the next outbound message.
    pub next_seq: u64,
}

impl Node {
    /// Every component is well-formed and tuned by the same configuration.
    pub open spec fn wf(self) -> bool {
        &&& self.config.wf()
        &&& self.router.wf()
        &&& self.registry.wf()
        &&& self.seen.wf()
        &&& self.seen.ttl() == self.config.seen_ttl
        &&& self.router.low() == self.config.mesh_low
        &&& self.router.target() == self.config.mesh_target
        &&& self.router.high() == self.config.mesh_high
    }

    /// A fresh node subscribed to `topic`, knowing no peer and having
    /// seen no message.
    pub fn new(local_peer: PeerId, topic: TopicId, config: GossipConfig) -> (n: Node)
        requires
            config.wf(),
        ensures
            n.wf(),
            n.local_peer == local_peer,
            n.config == config,
            n.router.topic() == topic,
            n.next_seq == 0,
            forall|p: PeerId| !n.router.knows(p),
            forall|p: PeerId| !n.registry.contains_peer(p),
            forall|id: MessageId, t: u64| !n.seen.seen_at(id, t),
    {
        let router = Router::new(topic, &config);
        let registry = PeerRegistry::new();
        let seen = SeenCache::new(config.seen_ttl);
        Node { local_peer, config, router, registry, seen, next_seq: 0 }
    }

    /// Publishes `payload` on the node's topic: a no-op while its
    /// content identifier is still seen (self-amplification guard), an
    /// error while the mesh is empty, and otherwise an envelope addressed
    /// to every mesh member, with the payload recorded as seen.
    pub fn publish(&mut self, payload: Vec<u8>, now: u64) -> (r: Result<Publication, PublishError>)
        requires
            old(self).wf(),
            old(self).next_seq < u64::MAX,
        ensures
            final(self).wf(),
            final(self).local_peer == old(self).local_peer,
            final(self).config == old(self).config,
            final(self).router == old(self).router,
            final(self).registry == old(self).registry,
            r is Ok <==> (!old(self).seen.seen_at(id_of(payload@), now)
                && old(self).router.has_mesh_member()),
            r == Err::<Publication, PublishError>(PublishError::Duplicate) <==> old(self).seen.seen_at(id_of(payload@), now),
            r == Err::<Publication, PublishError>(PublishError::NoMeshPeers) <==> (!old(self).seen.seen_at(id_of(payload@), now) && !old(self).router.has_mesh_member()),
            r is Err ==> *final(self) == *old(self),
            r matches Ok(p) ==> p.envelope.topic == old(self).router.topic()
                && p.envelope.payload@ == payload@ && p.envelope.source == old(self).local_peer
                && p.envelope.seq == old(self).next_seq,
            r matches Ok(p) ==> (forall|q: PeerId|
                p.recipients@.contains(q) <==> old(self).router.in_mesh(q)),
            r matches Ok(p) ==> (forall|k1: int, k2: int|
                0 <= k1 < k2 < p.recipients@.len() ==> p.recipients@[k1] != p.recipients@[k2]),
            r is Ok ==> final(self).next_seq == old(self).next_seq + 1 && (forall|t: u64|
                final(self).seen.seen_at(id_of(payload@), t) == (t < now
                    + old(self).config.seen_ttl)),
            forall|j: MessageId, t: u64|
                j != id_of(payload@) ==> final(self).seen.seen_at(j, t) == old(self).seen.seen_at(
                    j,
                    t,
                ),
    {
        let id = identify(&payload);
        if self.seen.is_seen(id, now) {
            return Err(PublishError::Duplicate);
        }
        let recipients = self.router.mesh_targets(None);
        if recipients.len() == 0 {
            proof {
                if self.router.has_mesh_member() {
                    let p = choose|p: PeerId| self.router.in_mesh(p);
                    assert(recipients@.contains(p));
                }
            }
            return Err(PublishError::NoMeshPeers);
        }
        assert(self.router.in_mesh(recipients@[0]));
        let fresh = self.seen.check_and_record(id, now);
        assert(fresh);
        let seq = self.next_seq;
        self.next_seq = self.next_seq + 1;
        let envelope = Envelope {
            topic: self.router.topic_id(),
            payload,
            source: self.local_peer,
            seq,
        };
        proof {
            assert forall|q: PeerId| recipients@.contains(q) implies self.router.in_mesh(q) by {
                let k = choose|k: int| 0 <= k < recipients@.len() && recipients@[k] == q;
            }
        }
        Ok(Publication { envelope, recipients })
    }

    /// Handles a message relayed by `from`, with the embedder's signature
    /// verdict. A message failing the signature or topic check is dropped
    /// silently; a message still in the seen cache is dropped; a fresh
    /// valid message is recorded, delivered to the application and
    /// forwarded to every mesh member except `from`.
    pub fn receive(&mut self, envelope: &Envelope, from: PeerId, sig_valid: bool, now: u64) -> (out:
        RecvOutcome)
        requires
            old(self).wf(),
        ensures
            final(self).wf(),
            final(self).local_peer == old(self).local_peer,
            final(self).config == old(self).config,
            final(self).router == old(self).router,
            final(self).registry == old(self).registry,
            final(self).next_seq == old(self).next_seq,
            !out.forward_to@.contains(from),
            out.deliver == (sig_valid && envelope.topic == old(self).router.topic() && !old(self).seen.seen_at(id_of(envelope.payload@), now)),
            !out.deliver ==> out.forward_to@.len() == 0 && *final(self) == *old(self),
            out.deliver ==> (forall|q: PeerId|
                out.forward_to@.contains(q) <==> (old(self).router.in_mesh(q) && q != from)),
            out.deliver ==> (forall|k1: int, k2: int|
                0 <= k1 < k2 < out.forward_to@.len() ==> out.forward_to@[k1]
                    != out.forward_to@[k2]),
            out.deliver ==> (forall|t: u64|
                final(self).seen.seen_at(id_of(envelope.payload@), t) == (t < now
                    + old(self).config.seen_ttl)),
            forall|j: MessageId, t: u64|
                j != id_of(envelope.payload@) ==> final(self).seen.seen_at(j, t) == old(self).seen.seen_at(j, t),
    {
        if !sig_valid {
            return RecvOutcome { deliver: false, forward_to: Vec::new() };
        }
        let topic = self.router.topic_id();
        if envelope.topic.id != topic.id {
            return RecvOutcome { deliver: false, forward_to: Vec::new() };
        }
        let id = identify(&envelope.payload);
        let fresh = self.seen.check_and_record(id, now);
        if !fresh {
            return RecvOutcome { deliver: false, forward_to: Vec::new() };
        }
        let forward_to = self.router.mesh_targets(Some(from));
        proof {
            assert(!forward_to@.contains(from)) by {
                if forward_to@.contains(from) {
                    let k = choose|k: int|
                        0 <= k < forward_to@.len() && forward_to@[k] == from;
                    assert(Some(forward_to@[k]) != Some(from));
                }
            }
            assert forall|q: PeerId|
                forward_to@.contains(q) <==> (old(self).router.in_mesh(q) && q != from) by {
                if forward_to@.contains(q) {
                    let k = choose|k: int|
                        0 <= k < forward_to@.len() && forward_to@[k] == q;
                    assert(Some(forward_to@[k]) != Some(from));
                }
            }
        }
        RecvOutcome { deliver: true, forward_to }
    }

    /// One heartbeat: mesh maintenance on the router, a registry sweep
    /// dropping expired unconnected non-explicit peers, and a seen-cache
    /// sweep dropping entries whose time-to-live has elapsed at `now`.
    pub fn heartbeat(&mut self, now: u64)
        requires
            old(self).wf(),
        ensures
            final(self).wf(),
            final(self).local_peer == old(self).local_peer,
            final(self).config == old(self).config,
            final(self).next_seq == old(self).next_seq,
            final(self).router.topic() == old(self).router.topic(),
            forall|p: PeerId| final(self).router.knows(p) == old(self).router.knows(p),
            forall|p: PeerId| final(self).router.subscribed(p) == old(self).router.subscribed(p),
            forall|p: PeerId| final(self).router.explicit(p) == old(self).router.explicit(p),
            forall|p: PeerId|
                final(self).router.explicit(p) && final(self).router.subscribed(p) ==> final(self).router.in_mesh(p),
            final(self).router.open_mesh_count() <= old(self).config.mesh_high,
            final(self).router.open_mesh_count() >= old(self).config.mesh_low || final(self).router.open_mesh_count() == final(self).router.open_sub_count(),
            final(self).router.open_sub_count() == old(self).router.open_sub_count(),
            forall|q: PeerId|
                final(self).registry.contains_peer(q) == (old(self).registry.contains_peer(q)
                    && !old(self).registry.removable(q)),
            forall|q: PeerId|
                final(self).registry.contains_peer(q) ==> final(self).registry.entry_for(q) == old(self).registry.entry_for(q),
            final(self).router.mesh_count() >= final(self).router.open_mesh_count(),
            final(self).router.mesh_count() >= old(self).config.mesh_low || final(self).router.open_mesh_count() == final(self).router.open_sub_count(),
            old(self).router.open_mesh_count() < old(self).config.mesh_low ==> final(self).router.open_mesh_count() == old(self).config.mesh_target || final(self).router.open_mesh_count() == final(self).router.open_sub_count(),
            old(self).router.open_mesh_count() > old(self).config.mesh_high ==> final(self).router.open_mesh_count() == old(self).config.mesh_target,
            old(self).config.mesh_low <= old(self).router.open_mesh_count() <= old(self).config.mesh_high ==> (forall|p: PeerId|
                final(self).router.in_mesh(p) == (old(self).router.in_mesh(p) || (old(self).router.explicit(p) && old(self).router.subscribed(p)))),
            forall|id: MessageId, t: u64|
                now <= t ==> final(self).seen.seen_at(id, t) == old(self).seen.seen_at(id, t),
            forall|id: MessageId, t: u64|
                final(self).seen.seen_at(id, t) ==> old(self).seen.seen_at(id, t),
            forall|id: MessageId, t: u64|
                final(self).seen.seen_at(id, t) ==> old(self).seen.seen_at(id, now),
    {
        self.router.heartbeat();
        self.registry.sweep();
        self.seen.sweep(now);
    }

    /// Discovery announced `peer`: record or refresh it and mark it
    /// explicit, for the registry and the router alike.
    pub fn on_peer_discovered(&mut self, peer: PeerId, addrs: Vec<String>)
        requires
            old(self).wf(),
        ensures
            final(self).wf(),
            final(self).local_peer == old(self).local_peer,
            final(self).config == old(self).config,
            final(self).next_seq == old(self).next_seq,
            final(self).seen == old(self).seen,
            final(self).registry.contains_peer(peer),
            final(self).registry.is_explicit(peer),
            !final(self).registry.is_expired(peer),
            final(self).registry.addrs_of(peer) == addrs@,
            final(self).router.explicit(peer),
            final(self).router.subscribed(peer) == old(self).router.subscribed(peer),
            final(self).router.in_mesh(peer) == old(self).router.in_mesh(peer),
            final(self).router.same_but(old(self).router, peer),
            forall|q: PeerId|
                q != peer ==> final(self).registry.contains_peer(q) == old(self).registry.contains_peer(q),
            forall|q: PeerId|
                q != peer && old(self).registry.contains_peer(q) ==> final(self).registry.entry_for(q) == old(self).registry.entry_for(q),
    {
        self.registry.on_discovered(peer, addrs);
        self.router.add_explicit_peer(peer);
    }

    /// Discovery reported `peer` expired: it loses its explicit standing
    /// everywhere; the registry entry lingers until a heartbeat sweep.
    pub fn on_peer_expired(&mut self, peer: PeerId)
        requires
            old(self).wf(),
        ensures
            final(self).wf(),
            final(self).local_peer == old(self).local_peer,
            final(self).config == old(self).config,
            final(self).next_seq == old(self).next_seq,
            final(self).seen == old(self).seen,
            forall|q: PeerId|
                final(self).registry.contains_peer(q) == old(self).registry.contains_peer(q),
            old(self).registry.contains_peer(peer) ==> !final(self).registry.is_explicit(peer)
                && final(self).registry.is_expired(peer) && final(self).registry.is_connected(
                peer,
            ) == old(self).registry.is_connected(peer) && final(self).registry.addrs_of(peer)
                == old(self).registry.addrs_of(peer),
            !final(self).router.explicit(peer),
            final(self).router.subscribed(peer) == old(self).router.subscribed(peer),
            final(self).router.in_mesh(peer) == old(self).router.in_mesh(peer),
            final(self).router.same_but(old(self).router, peer),
            forall|q: PeerId|
                q != peer && old(self).registry.contains_peer(q) ==> final(self).registry.entry_for(q) == old(self).registry.entry_for(q),
    {
        self.registry.on_expired(peer);
        self.router.remove_explicit_peer(peer);
    }

    /// A subscribe control message arrived from `peer`.
    pub fn on_peer_subscribed(&mut self, peer: PeerId)
        requires
            old(self).wf(),
        ensures
            final(self).wf(),
            final(self).local_peer == old(self).local_peer,
            final(self).config == old(self).config,
            final(self).next_seq == old(self).next_seq,
            final(self).seen == old(self).seen,
            final(self).registry == old(self).registry,
            final(self).router.subscribed(peer),
            final(self).router.in_mesh(peer) == old(self).router.in_mesh(peer),
            final(self).router.explicit(peer) == old(self).router.explicit(peer),
            final(self).router.same_but(old(self).router, peer),
    {
        self.router.on_subscribe(peer);
    }

    /// An unsubscribe control message arrived from `peer`: it leaves the
    /// mesh and the subscriber set immediately.
    pub fn on_peer_unsubscribed(&mut self, peer: PeerId)
        requires
            old(self).wf(),
        ensures
            final(self).wf(),
            final(self).local_peer == old(self).local_peer,
            final(self).config == old(self).config,
            final(self).next_seq == old(self).next_seq,
            final(self).seen == old(self).seen,
            final(self).registry == old(self).registry,
            !final(self).router.subscribed(peer),
            !final(self).router.in_mesh(peer),
            final(self).router.explicit(peer) == old(self).router.explicit(peer),
            final(self).router.same_but(old(self).router, peer),
    {
        self.router.on_unsubscribe(peer);
    }

    /// A connection to `peer` completed its handshake.
    pub fn on_peer_connected(&mut self, peer: PeerId)
        requires
            old(self).wf(),
        ensures
            final(self).wf(),
            final(self).local_peer == old(self).local_peer,
            final(self).config == old(self).config,
            final(self).next_seq == old(self).next_seq,
            final(self).seen == old(self).seen,
            final(self).router == old(self).router,
            forall|q: PeerId|
                final(self).registry.contains_peer(q) == old(self).registry.contains_peer(q),
            old(self).registry.contains_peer(peer) ==> final(self).registry.is_connected(peer)
                && final(self).registry.is_explicit(peer) == old(self).registry.is_explicit(peer)
                && final(self).registry.is_expired(peer) == old(self).registry.is_expired(peer)
                && final(self).registry.addrs_of(peer) == old(self).registry.addrs_of(peer),
            forall|q: PeerId|
                q != peer && old(self).registry.contains_peer(q) ==> final(self).registry.entry_for(q) == old(self).registry.entry_for(q),
    {
        self.registry.set_connected(peer, true);
    }

    /// The connection to `peer` closed: it leaves the mesh and subscriber
    /// records at once, and the registry notes it disconnected.
    pub fn on_peer_disconnected(&mut self, peer: PeerId)
        requires
            old(self).wf(),
        ensures
            final(self).wf(),
            final(self).local_peer == old(self).local_peer,
            final(self).config == old(self).config,
            final(self).next_seq == old(self).next_seq,
            final(self).seen == old(self).seen,
            !final(self).router.knows(peer),
            !final(self).router.in_mesh(peer),
            final(self).router.same_but(old(self).router, peer),
            forall|q: PeerId|
                final(self).registry.contains_peer(q) == old(self).registry.contains_peer(q),
            old(self).registry.contains_peer(peer) ==> !final(self).registry.is_connected(peer)
                && final(self).registry.is_explicit(peer) == old(self).registry.is_explicit(peer)
                && final(self).registry.is_expired(peer) == old(self).registry.is_expired(peer)
                && final(self).registry.addrs_of(peer) == old(self).registry.addrs_of(peer),
            forall|q: PeerId|
                q != peer && old(self).registry.contains_peer(q) ==> final(self).registry.entry_for(q) == old(self).registry.entry_for(q),
    {
        self.router.on_disconnect(peer);
        self.registry.set_connected(peer, false);
    }
}

/// One ready input for the event loop: a terminal line, a network or
/// discovery event, or a timer tick. A closed sum consumed by one central
/// dispatch keeps all state mutation on the caller's single thread.
#[derive(Debug)]
pub enum Event {
    /// One newline-terminated line of terminal input, to publish.
    InputLine { payload: Vec<u8> },
    /// A message envelope relayed by `from`, with the embedder's
    /// signature verdict.
    MessageReceived { envelope: Envelope, from: PeerId, sig_valid: bool },
    /// Discovery announced a peer and its addresses.
    PeerDiscovered { peer: PeerId, addrs: Vec<String> },
    /// Discovery reported a peer expired.
    PeerExpired { peer: PeerId },
    /// The peer subscribed to the node's topic.
    PeerSubscribed { peer: PeerId },
    /// The peer unsubscribed from the node's topic.
    PeerUnsubscribed { peer: PeerId },
    /// A connection to the peer completed its handshake.
    PeerConnected { peer: PeerId },
    /// The connection to the peer closed.
    PeerDisconnected { peer: PeerId },
    /// The periodic maintenance timer fired; `now` is passed alongside.
    HeartbeatTick,
}

/// What the embedder must do after an event was dispatched.
#[derive(Debug)]
pub enum Action {
    /// Send `envelope` to every peer in `to`; if `deliver` is set, also
    /// hand the payload to the local application, exactly once.
    Route { envelope: Envelope, to: Vec<PeerId>, deliver: bool },
    /// A local publish failed; surface it to the caller, send nothing.
    PublishFailed { reason: PublishError },
}

impl Node {
    /// Central dispatch: consumes one ready event and returns what the
    /// embedder must do, mutating the node on the way. One event per loop
    /// iteration keeps state transitions totally ordered.
    pub fn handle_event(&mut self, event: Event, now: u64) -> (action: Option<Action>)
        requires
            old(self).wf(),
            event matches Event::InputLine { .. } ==> old(self).next_seq < u64::MAX,
        ensures
            final(self).wf(),
            final(self).local_peer == old(self).local_peer,
            final(self).config == old(self).config,
            event matches Event::MessageReceived { sig_valid: false, .. } ==> action is None
                && *final(self) == *old(self),
            event matches Event::MessageReceived { from, .. } ==> (action matches Some(
                Action::Route { to, .. },
            ) ==> !to@.contains(from)),
            event matches Event::MessageReceived { envelope, from, sig_valid } ==> (action matches
                Some(Action::Route { envelope: e, to, deliver }) ==> e == envelope && (deliver
                ==> (forall|q: PeerId|
                to@.contains(q) <==> (old(self).router.in_mesh(q) && q != from)))),
            event matches Event::MessageReceived { envelope, from, sig_valid } ==> ((sig_valid
                && envelope.topic == old(self).router.topic() && !old(self).seen.seen_at(
                id_of(envelope.payload@),
                now,
            )) <==> (action matches Some(Action::Route { deliver: true, .. }))),
            event matches Event::InputLine { payload } ==> (old(self).seen.seen_at(
                id_of(payload@),
                now,
            ) <==> action == Some(Action::PublishFailed { reason: PublishError::Duplicate })),
            event matches Event::InputLine { payload } ==> action is Some,
            event matches Event::InputLine { payload } ==> ((!old(self).seen.seen_at(
                id_of(payload@),
                now,
            ) && !old(self).router.has_mesh_member()) <==> action == Some(
                Action::PublishFailed { reason: PublishError::NoMeshPeers },
            )),
            event matches Event::MessageReceived { envelope, from, sig_valid } ==> (action is None
                ==> *final(self) == *old(self)),
            event matches Event::InputLine { payload } ==> (action matches Some(
                Action::Route { envelope: e, to, deliver },
            ) ==> !deliver && e.payload@ == payload@ && e.source == old(self).local_peer && (
            forall|q: PeerId| to@.contains(q) <==> old(self).router.in_mesh(q))),
            event matches Event::HeartbeatTick ==> action is None && final(self).router.open_mesh_count() <= old(self).config.mesh_high && (forall|q: PeerId|
                final(self).registry.contains_peer(q) == (old(self).registry.contains_peer(q)
                    && !old(self).registry.removable(q))),
            event matches Event::PeerDiscovered { peer, addrs } ==> action is None && final(self).registry.contains_peer(peer) && final(self).registry.is_explicit(peer) && !final(self).registry.is_expired(peer) && final(self).registry.addrs_of(peer) == addrs@ && final(self).router.explicit(peer) && final(self).router.subscribed(peer) == old(self).router.subscribed(peer) && final(self).router.in_mesh(peer) == old(self).router.in_mesh(peer) && final(self).router.same_but(old(self).router, peer) && final(self).seen == old(self).seen && final(self).next_seq == old(self).next_seq,
            event matches Event::PeerExpired { peer } ==> action is None && !final(self).router.explicit(peer) && final(self).router.in_mesh(peer) == old(self).router.in_mesh(peer) && final(self).router.same_but(old(self).router, peer) && (old(self).registry.contains_peer(peer) ==> !final(self).registry.is_explicit(peer) && final(self).registry.is_expired(peer)) && (forall|q: PeerId|
                final(self).registry.contains_peer(q) == old(self).registry.contains_peer(q))
                && final(self).seen == old(self).seen && final(self).next_seq == old(self).next_seq,
            event matches Event::PeerSubscribed { peer } ==> action is None && final(self).router.subscribed(peer) && final(self).router.in_mesh(peer) == old(self).router.in_mesh(peer) && final(self).router.explicit(peer) == old(self).router.explicit(peer) && final(self).router.same_but(old(self).router, peer)
                && final(self).registry == old(self).registry && final(self).seen == old(self).seen && final(self).next_seq == old(self).next_seq,
            event matches Event::PeerUnsubscribed { peer } ==> action is None && !final(self).router.subscribed(peer) && !final(self).router.in_mesh(peer) && final(self).router.same_but(old(self).router, peer) && final(self).registry == old(self).registry && final(self).seen == old(self).seen && final(self).next_seq == old(self).next_seq,
            event matches Event::PeerConnected { peer } ==> action is None && final(self).router
                == old(self).router && (forall|q: PeerId|
                final(self).registry.contains_peer(q) == old(self).registry.contains_peer(q)) && (
            old(self).registry.contains_peer(peer) ==> final(self).registry.is_connected(peer))
                && final(self).seen == old(self).seen && final(self).next_seq == old(self).next_seq,
            event matches Event::PeerDisconnected { peer } ==> action is None && !final(self).router.knows(peer) && !final(self).router.in_mesh(peer) && final(self).router.same_but(old(self).router, peer) && (forall|q: PeerId|
                final(self).registry.contains_peer(q) == old(self).registry.contains_peer(q)) && (
            old(self).registry.contains_peer(peer) ==> !final(self).registry.is_connected(peer))
                && final(self).seen == old(self).seen && final(self).next_seq == old(self).next_seq,
    {
        match event {
            Event::InputLine { payload } => {
                match self.publish(payload, now) {
                    Ok(p) => Some(
                        Action::Route { envelope: p.envelope, to: p.recipients, deliver: false },
                    ),
                    Err(reason) => Some(Action::PublishFailed { reason }),
                }
            },
            Event::MessageReceived { envelope, from, sig_valid } => {
                let out = self.receive(&envelope, from, sig_valid, now);
                if out.deliver {
                    Some(
                        Action::Route {
                            envelope,
                            to: out.forward_to,
                            deliver: true,
                        },
                    )
                } else {
                    None
                }
            },
            Event::PeerDiscovered { peer, addrs } => {
                self.on_peer_discovered(peer, addrs);
                None
            },
            Event::PeerExpired { peer } => {
                self.on_peer_expired(peer);
                None
            },
            Event::PeerSubscribed { peer } => {
                self.on_peer_subscribed(peer);
                None
            },
            Event::PeerUnsubscribed { peer } => {
                self.on_peer_unsubscribed(peer);
                None
            },
            Event::PeerConnected { peer } => {
                self.on_peer_connected(peer);
                None
            },
            Event::PeerDisconnected { peer } => {
                self.on_peer_disconnected(peer);
                None
            },
            Event::HeartbeatTick => {
                self.heartbeat(now);
                None
            },
        }
    }
}

} // verus!
