//! Peer registry: known peer identifiers, their advertised addresses and
//! their reachability state, fed by discovery events.
//!
//! A discovery announcement adds or refreshes a peer and marks it
//! explicit (always kept connected); a discovery expiry downgrades it.
//! A downgraded peer with no live connection is removed by the next
//! `sweep`, which the node runs on every heartbeat.

use crate::ids::PeerId;
use vstd::prelude::*;

verus! {

/// What the registry knows of one peer.
pub struct PeerEntry {
    pub peer: PeerId,
    /// Addresses the peer advertised, as the embedder's rendering of them.
    pub addrs: Vec<String>,
    /// Explicit peers are always kept connected and bypass mesh limits.
    pub explicit: bool,
    /// Discovery has reported the peer expired and not re-announced it.
    pub expired: bool,
    /// A live connection (open streams) to the peer exists.
    pub connected: bool,
}

/// Tracks every known peer, at most one entry per peer identifier.
pub struct PeerRegistry {
    entries: Vec<PeerEntry>,
}

impl PeerRegistry {
    /// Internal invariant: at most one entry per peer identifier.
    pub closed spec fn wf(self) -> bool {
        forall|i: int, j: int|
            0 <= i < j < self.entries@.len() ==> self.entries@[i].peer != self.entries@[j].peer
    }

    /// How many peers the registry currently holds.
    pub closed spec fn len(self) -> nat {
        self.entries@.len()
    }

    /// Whether the registry holds an entry for `p`.
    pub closed spec fn contains_peer(self, p: PeerId) -> bool {
        exists|i: int| 0 <= i < self.entries@.len() && self.entries@[i].peer == p
    }

    /// The entry recorded for `p`; meaningful only when `contains_peer(p)`.
    pub closed spec fn entry_for(self, p: PeerId) -> PeerEntry {
        self.entries@[choose|i: int|
            0 <= i < self.entries@.len() && self.entries@[i].peer == p]
    }

    /// Whether `p` is an explicit (always-connect) peer.
    pub open spec fn is_explicit(self, p: PeerId) -> bool {
        self.contains_peer(p) && self.entry_for(p).explicit
    }

    /// Whether discovery has reported `p` expired without re-announcing it.
    pub open spec fn is_expired(self, p: PeerId) -> bool {
        self.contains_peer(p) && self.entry_for(p).expired
    }

    /// Whether a live connection to `p` exists.
    pub open spec fn is_connected(self, p: PeerId) -> bool {
        self.contains_peer(p) && self.entry_for(p).connected
    }

    /// The address set last advertised by `p`.
    pub open spec fn addrs_of(self, p: PeerId) -> Seq<String> {
        self.entry_for(p).addrs@
    }

    /// A peer the next sweep will drop: reported expired, not explicit,
    /// and without a live connection.
    pub open spec fn removable(self, p: PeerId) -> bool {
        self.is_expired(p) && !self.is_explicit(p) && !self.is_connected(p)
    }

    /// With unique peer identifiers, the entry at any index holding `p`
    /// is the entry for `p`.
    proof fn lemma_entry_at(self, p: PeerId, i: int)
        requires
            self.wf(),
            0 <= i < self.entries@.len(),
            self.entries@[i].peer == p,
        ensures
            self.contains_peer(p),
            self.entry_for(p) == self.entries@[i],
    {
        assert(self.contains_peer(p));
        let j = choose|j: int| 0 <= j < self.entries@.len() && self.entries@[j].peer == p;
        if j != i {
            if i < j {
                assert(self.entries@[i].peer != self.entries@[j].peer);
            } else {
                assert(self.entries@[j].peer != self.entries@[i].peer);
            }
        }
    }

    /// Replacing the entry at one index, without changing which peer it
    /// names, leaves every other peer's presence and entry as they were.
    proof fn lemma_update_preserves_others(pre: PeerRegistry, post: PeerRegistry, i: int)
        requires
            pre.wf(),
            post.wf(),
            0 <= i < pre.entries@.len(),
            post.entries@.len() == pre.entries@.len(),
            post.entries@ == pre.entries@.update(i, post.entries@[i]),
            post.entries@[i].peer == pre.entries@[i].peer,
        ensures
            forall|q: PeerId|
                q != pre.entries@[i].peer ==> post.contains_peer(q) == pre.contains_peer(q),
            forall|q: PeerId|
                q != pre.entries@[i].peer && pre.contains_peer(q) ==> post.entry_for(q)
                    == pre.entry_for(q),
    {
        let p = pre.entries@[i].peer;
        assert forall|q: PeerId| q != p implies post.contains_peer(q) == pre.contains_peer(q) by {
            if pre.contains_peer(q) {
                let k = choose|k: int|
                    0 <= k < pre.entries@.len() && pre.entries@[k].peer == q;
                assert(k != i);
                assert(post.entries@[k].peer == q);
            }
            if post.contains_peer(q) {
                let k = choose|k: int|
                    0 <= k < post.entries@.len() && post.entries@[k].peer == q;
                assert(k != i);
                assert(pre.entries@[k].peer == q);
            }
        }
        assert forall|q: PeerId| q != p && pre.contains_peer(q) implies post.entry_for(q)
            == pre.entry_for(q) by {
            let k = choose|k: int| 0 <= k < pre.entries@.len() && pre.entries@[k].peer == q;
            assert(k != i);
            pre.lemma_entry_at(q, k);
            post.lemma_entry_at(q, k);
        }
    }

    /// An empty registry.
    pub fn new() -> (r: PeerRegistry)
        ensures
            r.wf(),
            r.len() == 0,
            forall|p: PeerId| !r.contains_peer(p),
    {
        PeerRegistry { entries: Vec::new() }
    }

    /// Index of the entry for `peer`, if one exists.
    #[verifier::loop_isolation(false)]
    fn find(&self, peer: PeerId) -> (r: Option<usize>)
        requires
            self.wf(),
        ensures
            match r {
                Some(i) => i < self.entries@.len() && self.entries@[i as int].peer == peer
                    && self.contains_peer(peer) && self.entry_for(peer) == self.entries@[i as int],
                None => !self.contains_peer(peer),
            },
    {
        let mut i: usize = 0;
        while i < self.entries.len()
            invariant
                i <= self.entries.len(),
                forall|k: int| 0 <= k < i ==> self.entries@[k].peer != peer,
            decreases self.entries.len() - i,
        {
            if self.entries[i].peer == peer {
                proof {
                    self.lemma_entry_at(peer, i as int);
                }
                return Some(i);
            }
            i = i + 1;
        }
        None
    }

    /// Whether `peer` is currently listed.
    pub fn knows_peer(&self, peer: PeerId) -> (r: bool)
        requires
            self.wf(),
        ensures
            r == self.contains_peer(peer),
    {
        self.find(peer).is_some()
    }

    /// Whether `peer` is currently marked explicit.
    pub fn peer_explicit(&self, peer: PeerId) -> (r: bool)
        requires
            self.wf(),
        ensures
            r == self.is_explicit(peer),
    {
        match self.find(peer) {
            Some(i) => self.entries[i].explicit,
            None => false,
        }
    }

    /// Whether discovery has reported `peer` expired.
    pub fn peer_expired(&self, peer: PeerId) -> (r: bool)
        requires
            self.wf(),
        ensures
            r == self.is_expired(peer),
    {
        match self.find(peer) {
            Some(i) => self.entries[i].expired,
            None => false,
        }
    }

    /// Whether a live connection to `peer` is recorded.
    pub fn peer_connected(&self, peer: PeerId) -> (r: bool)
        requires
            self.wf(),
        ensures
            r == self.is_connected(peer),
    {
        match self.find(peer) {
            Some(i) => self.entries[i].connected,
            None => false,
        }
    }

    /// Discovery announced `peer`: add it, or refresh its address set,
    /// and mark it explicit and unexpired either way. A refreshed peer
    /// keeps its connection state; a new one starts disconnected.
    pub fn on_discovered(&mut self, peer: PeerId, addrs: Vec<String>)
        requires
            old(self).wf(),
        ensures
            final(self).wf(),
            final(self).contains_peer(peer),
            final(self).is_explicit(peer),
            !final(self).is_expired(peer),
            final(self).addrs_of(peer) == addrs@,
            final(self).is_connected(peer) == old(self).is_connected(peer),
            final(self).len() == old(self).len() + (if old(self).contains_peer(peer) {
                0int
            } else {
                1int
            }),
            forall|q: PeerId| q != peer ==> final(self).contains_peer(q) == old(self).contains_peer(q),
            forall|q: PeerId|
                q != peer && old(self).contains_peer(q) ==> final(self).entry_for(q) == old(self).entry_for(q),
    {
        let ghost pre = *self;
        match self.find(peer) {
            Some(i) => {
                let mut e = self.entries.remove(i);
                e.addrs = addrs;
                e.explicit = true;
                e.expired = false;
                self.entries.insert(i, e);
                proof {
                    assert(self.entries@ =~= pre.entries@.update(
                        i as int,
                        self.entries@[i as int],
                    ));
                    assert(self.wf()) by {
                        assert(forall|k: int|
                            0 <= k < self.entries@.len() ==> self.entries@[k].peer
                                == pre.entries@[k].peer);
                    }
                    self.lemma_entry_at(peer, i as int);
                    Self::lemma_update_preserves_others(pre, *self, i as int);
                }
            },
            None => {
                let ghost n = self.entries@.len() as int;
                self.entries.push(
                    PeerEntry { peer, addrs, explicit: true, expired: false, connected: false },
                );
                proof {
                    assert(self.wf()) by {
                        assert(forall|k: int|
                            0 <= k < n ==> self.entries@[k] == pre.entries@[k]);
                    }
                    self.lemma_entry_at(peer, n);
                    assert forall|q: PeerId| q != peer implies self.contains_peer(q) == pre.contains_peer(
                        q,
                    ) by {
                        if pre.contains_peer(q) {
                            let k = choose|k: int|
                                0 <= k < pre.entries@.len() && pre.entries@[k].peer == q;
                            assert(self.entries@[k].peer == q);
                        }
                        if self.contains_peer(q) {
                            let k = choose|k: int|
                                0 <= k < self.entries@.len() && self.entries@[k].peer == q;
                            assert(k != n);
                            assert(pre.entries@[k].peer == q);
                        }
                    }
                    assert forall|q: PeerId| q != peer && pre.contains_peer(q) implies self.entry_for(
                        q,
                    ) == pre.entry_for(q) by {
                        let k = choose|k: int|
                            0 <= k < pre.entries@.len() && pre.entries@[k].peer == q;
                        pre.lemma_entry_at(q, k);
                        self.lemma_entry_at(q, k);
                    }
                }
            },
        }
    }

    /// Discovery reported `peer` expired: remove the explicit flag and
    /// mark the entry expired. Unknown peers are ignored. The entry stays
    /// until a sweep finds it removable.
    pub fn on_expired(&mut self, peer: PeerId)
        requires
            old(self).wf(),
        ensures
            final(self).wf(),
            final(self).len() == old(self).len(),
            forall|q: PeerId| final(self).contains_peer(q) == old(self).contains_peer(q),
            old(self).contains_peer(peer) ==> !final(self).is_explicit(peer) && final(self).is_expired(peer) && final(self).is_connected(peer) == old(self).is_connected(peer)
                && final(self).addrs_of(peer) == old(self).addrs_of(peer),
            forall|q: PeerId|
                q != peer && old(self).contains_peer(q) ==> final(self).entry_for(q) == old(self).entry_for(q),
    {
        let ghost pre = *self;
        match self.find(peer) {
            Some(i) => {
                let mut e = self.entries.remove(i);
                e.explicit = false;
                e.expired = true;
                self.entries.insert(i, e);
                proof {
                    assert(self.entries@ =~= pre.entries@.update(
                        i as int,
                        self.entries@[i as int],
                    ));
                    assert(self.wf()) by {
                        assert(forall|k: int|
                            0 <= k < self.entries@.len() ==> self.entries@[k].peer
                                == pre.entries@[k].peer);
                    }
                    self.lemma_entry_at(peer, i as int);
                    Self::lemma_update_preserves_others(pre, *self, i as int);
                }
            },
            None => {},
        }
    }

    /// Records whether a live connection to `peer` exists. Unknown peers
    /// are ignored.
    pub fn set_connected(&mut self, peer: PeerId, connected: bool)
        requires
            old(self).wf(),
        ensures
            final(self).wf(),
            final(self).len() == old(self).len(),
            forall|q: PeerId| final(self).contains_peer(q) == old(self).contains_peer(q),
            old(self).contains_peer(peer) ==> final(self).is_connected(peer) == connected && final(self).is_explicit(peer) == old(self).is_explicit(peer) && final(self).is_expired(peer)
                == old(self).is_expired(peer) && final(self).addrs_of(peer) == old(self).addrs_of(
                peer,
            ),
            forall|q: PeerId|
                q != peer && old(self).contains_peer(q) ==> final(self).entry_for(q) == old(self).entry_for(q),
    {
        let ghost pre = *self;
        match self.find(peer) {
            Some(i) => {
                let mut e = self.entries.remove(i);
                e.connected = connected;
                self.entries.insert(i, e);
                proof {
                    assert(self.entries@ =~= pre.entries@.update(
                        i as int,
                        self.entries@[i as int],
                    ));
                    assert(self.wf()) by {
                        assert(forall|k: int|
                            0 <= k < self.entries@.len() ==> self.entries@[k].peer
                                == pre.entries@[k].peer);
                    }
                    self.lemma_entry_at(peer, i as int);
                    Self::lemma_update_preserves_others(pre, *self, i as int);
                }
            },
            None => {},
        }
    }

    /// Drops every removable peer: expired, not explicit and without a
    /// live connection. Every other peer keeps its entry unchanged.
    #[verifier::loop_isolation(false)]
    pub fn sweep(&mut self)
        requires
            old(self).wf(),
        ensures
            final(self).wf(),
            final(self).len() <= old(self).len(),
            forall|q: PeerId|
                final(self).contains_peer(q) == (old(self).contains_peer(q) && !old(self).removable(q)),
            forall|q: PeerId|
                final(self).contains_peer(q) ==> final(self).entry_for(q) == old(self).entry_for(
                    q,
                ),
    {
        let ghost pre = *self;
        let ghost n = pre.entries@.len() as int;
        let mut pending: Vec<PeerEntry> = Vec::new();
        core::mem::swap(&mut pending, &mut self.entries);
        let ghost mut j: int = 0;
        while pending.len() > 0
            invariant
                0 <= j <= n,
                pending@ =~= pre.entries@.subrange(j, n),
                forall|k: int|
                    0 <= k < self.entries@.len() ==> exists|m: int|
                        0 <= m < j && pre.entries@[m] == #[trigger] self.entries@[k],
                forall|k: int|
                    0 <= k < self.entries@.len() ==> !(#[trigger] self.entries@[k].expired
                        && !self.entries@[k].explicit && !self.entries@[k].connected),
                forall|m: int|
                    0 <= m < j && !(pre.entries@[m].expired && !pre.entries@[m].explicit
                        && !pre.entries@[m].connected) ==> exists|k: int|
                        0 <= k < self.entries@.len() && self.entries@[k] == #[trigger] pre.entries@[m],
                self.wf(),
                self.entries@.len() <= j,
            decreases pending.len(),
        {
            let ghost kept_pre = self.entries@;
            let e = pending.remove(0);
            proof {
                assert(e == pre.entries@[j]);
                assert(pending@ =~= pre.entries@.subrange(j + 1, n));
            }
            if e.expired && !e.explicit && !e.connected {
                proof {
                    assert forall|m: int|
                        0 <= m < j + 1 && !(pre.entries@[m].expired && !pre.entries@[m].explicit
                            && !pre.entries@[m].connected) implies exists|k: int|
                        0 <= k < self.entries@.len() && self.entries@[k] == pre.entries@[m] by {
                        if m < j {
                            let k = choose|k: int|
                                0 <= k < self.entries@.len() && self.entries@[k]
                                    == pre.entries@[m];
                        }
                    }
                }
            } else {
                proof {
                    assert forall|k: int| 0 <= k < self.entries@.len() implies self.entries@[k].peer
                        != e.peer by {
                        let m = choose|m: int|
                            0 <= m < j && pre.entries@[m] == self.entries@[k];
                        assert(pre.entries@[m].peer != pre.entries@[j].peer);
                    }
                }
                self.entries.push(e);
                proof {
                    let kn = kept_pre.len() as int;
                    assert(self.entries@[kn] == pre.entries@[j]);
                    assert forall|m: int|
                        0 <= m < j + 1 && !(pre.entries@[m].expired && !pre.entries@[m].explicit
                            && !pre.entries@[m].connected) implies exists|k: int|
                        0 <= k < self.entries@.len() && self.entries@[k] == pre.entries@[m] by {
                        if m < j {
                            let k = choose|k: int|
                                0 <= k < kept_pre.len() && kept_pre[k] == pre.entries@[m];
                            assert(self.entries@[k] == pre.entries@[m]);
                        } else {
                            assert(self.entries@[kn] == pre.entries@[m]);
                        }
                    }
                }
            }
            proof {
                j = j + 1;
            }
        }
        proof {
            assert(j == n);
            assert forall|q: PeerId| self.contains_peer(q) == (pre.contains_peer(q)
                && !pre.removable(q)) by {
                if self.contains_peer(q) {
                    let k = choose|k: int|
                        0 <= k < self.entries@.len() && self.entries@[k].peer == q;
                    let m = choose|m: int|
                        0 <= m < n && pre.entries@[m] == self.entries@[k];
                    pre.lemma_entry_at(q, m);
                    assert(!pre.removable(q));
                }
                if pre.contains_peer(q) && !pre.removable(q) {
                    let m = choose|m: int|
                        0 <= m < pre.entries@.len() && pre.entries@[m].peer == q;
                    pre.lemma_entry_at(q, m);
                    assert(!(pre.entries@[m].expired && !pre.entries@[m].explicit
                        && !pre.entries@[m].connected));
                    let k = choose|k: int|
                        0 <= k < self.entries@.len() && self.entries@[k] == pre.entries@[m];
                    assert(self.entries@[k].peer == q);
                }
            }
            assert forall|q: PeerId| self.contains_peer(q) implies self.entry_for(q)
                == pre.entry_for(q) by {
                let k = choose|k: int|
                    0 <= k < self.entries@.len() && self.entries@[k].peer == q;
                self.lemma_entry_at(q, k);
                let m = choose|m: int| 0 <= m < n && pre.entries@[m] == self.entries@[k];
                pre.lemma_entry_at(q, m);
            }
        }
    }
}

} // verus!
