//! Gossip router state for one topic: which peers are known to be
//! subscribed, which of them are in the mesh (the peers actively forwarded
//! to), and which are explicit. Mesh membership changes only at heartbeat
//! boundaries: `heartbeat` grafts subscribed peers while the mesh is under
//! the low watermark and prunes non-explicit peers while it is over the
//! high watermark, steering towards the target size.

use crate::config::GossipConfig;
use crate::ids::PeerId;
use crate::ids::TopicId;
use vstd::prelude::*;

verus! {

/// Per-peer membership state for the router's topic. A peer moves from
/// not-subscribed to subscribed on a subscribe control message, in and out
/// of the mesh at heartbeats, and back to not-subscribed on an unsubscribe
/// or a disconnect.
#[derive(Clone, Copy, Debug, PartialEq, Eq, Structural)]
pub struct PeerState {
    pub peer: PeerId,
    /// The peer announced a subscription to this topic.
    pub subscribed: bool,
    /// Messages on this topic are actively forwarded to the peer.
    pub in_mesh: bool,
    /// The peer bypasses mesh size limits and is never pruned.
    pub explicit: bool,
}

/// A member of the open mesh: in the mesh and subject to size limits.
pub open spec fn open_mesh_member(s: PeerState) -> bool {
    s.in_mesh && !s.explicit
}

/// A candidate for the open mesh: subscribed and subject to size limits.
pub open spec fn open_sub_member(s: PeerState) -> bool {
    s.subscribed && !s.explicit
}

/// How many records are open mesh members.
pub open spec fn count_open_mesh(s: Seq<PeerState>) -> nat
    decreases s.len(),
{
    if s.len() == 0 {
        0
    } else {
        count_open_mesh(s.drop_last()) + (if open_mesh_member(s.last()) {
            1nat
        } else {
            0nat
        })
    }
}

/// How many records are open mesh candidates.
pub open spec fn count_open_sub(s: Seq<PeerState>) -> nat
    decreases s.len(),
{
    if s.len() == 0 {
        0
    } else {
        count_open_sub(s.drop_last()) + (if open_sub_member(s.last()) {
            1nat
        } else {
            0nat
        })
    }
}

/// A mesh member of any standing, explicit or not.
pub open spec fn mesh_member(s: PeerState) -> bool {
    s.in_mesh
}

/// How many records are mesh members, explicit ones included.
pub open spec fn count_mesh(s: Seq<PeerState>) -> nat
    decreases s.len(),
{
    if s.len() == 0 {
        0
    } else {
        count_mesh(s.drop_last()) + (if mesh_member(s.last()) {
            1nat
        } else {
            0nat
        })
    }
}

/// The open mesh is part of the whole mesh.
proof fn lemma_open_mesh_le_mesh(s: Seq<PeerState>)
    ensures
        count_open_mesh(s) <= count_mesh(s),
    decreases s.len(),
{
    if s.len() > 0 {
        lemma_open_mesh_le_mesh(s.drop_last());
    }
}

proof fn lemma_open_mesh_update(s: Seq<PeerState>, i: int, v: PeerState)
    requires
        0 <= i < s.len(),
    ensures
        count_open_mesh(s.update(i, v)) == count_open_mesh(s) + (if open_mesh_member(v) {
            1int
        } else {
            0int
        }) - (if open_mesh_member(s[i]) {
            1int
        } else {
            0int
        }),
    decreases s.len(),
{
    if i == s.len() - 1 {
        assert(s.update(i, v).drop_last() =~= s.drop_last());
        assert(s.update(i, v).last() == v);
    } else {
        assert(s.update(i, v).drop_last() =~= s.drop_last().update(i, v));
        assert(s.update(i, v).last() == s.last());
        lemma_open_mesh_update(s.drop_last(), i, v);
    }
}

proof fn lemma_open_sub_update(s: Seq<PeerState>, i: int, v: PeerState)
    requires
        0 <= i < s.len(),
    ensures
        count_open_sub(s.update(i, v)) == count_open_sub(s) + (if open_sub_member(v) {
            1int
        } else {
            0int
        }) - (if open_sub_member(s[i]) {
            1int
        } else {
            0int
        }),
    decreases s.len(),
{
    if i == s.len() - 1 {
        assert(s.update(i, v).drop_last() =~= s.drop_last());
        assert(s.update(i, v).last() == v);
    } else {
        assert(s.update(i, v).drop_last() =~= s.drop_last().update(i, v));
        assert(s.update(i, v).last() == s.last());
        lemma_open_sub_update(s.drop_last(), i, v);
    }
}

proof fn lemma_open_mesh_take_step(s: Seq<PeerState>, k: int)
    requires
        0 <= k < s.len(),
    ensures
        count_open_mesh(s.take(k + 1)) == count_open_mesh(s.take(k)) + (if open_mesh_member(
            s[k],
        ) {
            1int
        } else {
            0int
        }),
{
    assert(s.take(k + 1).drop_last() =~= s.take(k));
    assert(s.take(k + 1).last() == s[k]);
}

/// When every open candidate is in the mesh and every mesh member is
/// subscribed, the open mesh is exactly the open candidate set.
proof fn lemma_counts_eq_when_all_grafted(s: Seq<PeerState>)
    requires
        forall|k: int| 0 <= k < s.len() && open_sub_member(#[trigger] s[k]) ==> s[k].in_mesh,
        forall|k: int| 0 <= k < s.len() && (#[trigger] s[k]).in_mesh ==> s[k].subscribed,
    ensures
        count_open_mesh(s) == count_open_sub(s),
    decreases s.len(),
{
    if s.len() > 0 {
        assert(s.last() == s[s.len() - 1]);
        assert(forall|k: int|
            0 <= k < s.drop_last().len() ==> #[trigger] s.drop_last()[k] == s[k]);
        lemma_counts_eq_when_all_grafted(s.drop_last());
    }
}

/// Some record among the first `bound` names `p` as a mesh member.
pub open spec fn mesh_in_prefix(peers: Seq<PeerState>, p: PeerId, bound: int) -> bool {
    exists|j: int| 0 <= j < bound && (#[trigger] peers[j]).peer == p && peers[j].in_mesh
}

/// Every listed target is a mesh member found among the first `bound`
/// peer records.
pub open spec fn targets_sound(peers: Seq<PeerState>, r: Seq<PeerId>, bound: int) -> bool {
    forall|k: int| 0 <= k < r.len() ==> mesh_in_prefix(peers, #[trigger] r[k], bound)
}

proof fn lemma_mesh_in_prefix_widen(peers: Seq<PeerState>, p: PeerId, b1: int, b2: int)
    requires
        mesh_in_prefix(peers, p, b1),
        b1 <= b2,
    ensures
        mesh_in_prefix(peers, p, b2),
{
    let j = choose|j: int| 0 <= j < b1 && (#[trigger] peers[j]).peer == p && peers[j].in_mesh;
    assert(0 <= j < b2 && peers[j].peer == p && peers[j].in_mesh);
}

/// Whether `q` occurs in `v`.
#[verifier::loop_isolation(false)]
pub fn contains_peer_id(v: &Vec<PeerId>, q: PeerId) -> (r: bool)
    ensures
        r == v@.contains(q),
{
    let mut i: usize = 0;
    while i < v.len()
        invariant
            i <= v.len(),
            forall|k: int| 0 <= k < i ==> v@[k] != q,
        decreases v.len() - i,
    {
        if v[i].id == q.id {
            assert(v@[i as int] == q);
            return true;
        }
        i = i + 1;
    }
    proof {
        if v@.contains(q) {
            let k = choose|k: int| 0 <= k < v@.len() && v@[k] == q;
        }
    }
    false
}

/// The peers listed in `after` but not in `before`, each once. With the
/// mesh listings taken before and after a heartbeat, these are the peers
/// owed a Graft control message (and, with the arguments swapped, a Prune).
#[verifier::loop_isolation(false)]
pub fn mesh_delta(before: &Vec<PeerId>, after: &Vec<PeerId>) -> (r: Vec<PeerId>)
    ensures
        forall|q: PeerId| r@.contains(q) <==> (after@.contains(q) && !before@.contains(q)),
        forall|k1: int, k2: int| 0 <= k1 < k2 < r@.len() ==> r@[k1] != r@[k2],
{
    let mut r: Vec<PeerId> = Vec::new();
    let mut i: usize = 0;
    while i < after.len()
        invariant
            i <= after.len(),
            forall|k: int|
                0 <= k < r@.len() ==> after@.contains(#[trigger] r@[k]) && !before@.contains(
                    r@[k],
                ),
            forall|j: int|
                0 <= j < i && !before@.contains(#[trigger] after@[j]) ==> r@.contains(after@[j]),
            forall|k1: int, k2: int| 0 <= k1 < k2 < r@.len() ==> r@[k1] != r@[k2],
        decreases after.len() - i,
    {
        let ghost prev = r@;
        let q = after[i];
        assert(after@.contains(q)) by {
            assert(after@[i as int] == q);
        }
        if !contains_peer_id(before, q) && !contains_peer_id(&r, q) {
            r.push(q);
            proof {
                let m = prev.len() as int;
                assert(r@[m] == q);
                assert forall|j: int|
                    0 <= j < i + 1 && !before@.contains(#[trigger] after@[j]) implies r@.contains(
                    after@[j],
                ) by {
                    if j < i {
                        let k = choose|k: int| 0 <= k < prev.len() && prev[k] == after@[j];
                        assert(r@[k] == after@[j]);
                    } else {
                        assert(r@[m] == after@[j]);
                    }
                }
                assert forall|k: int|
                    0 <= k < r@.len() implies after@.contains(#[trigger] r@[k])
                    && !before@.contains(r@[k]) by {
                    if k < m {
                        assert(prev[k] == r@[k]);
                    }
                }
            }
        } else {
            proof {
                assert forall|j: int|
                    0 <= j < i + 1 && !before@.contains(#[trigger] after@[j]) implies r@.contains(
                    after@[j],
                ) by {
                    if j == i {
                        assert(r@.contains(q));
                    }
                }
            }
        }
        i = i + 1;
    }
    proof {
        assert forall|q: PeerId| r@.contains(q) implies (after@.contains(q) && !before@.contains(
            q,
        )) by {
            let k = choose|k: int| 0 <= k < r@.len() && r@[k] == q;
        }
        assert forall|q: PeerId| after@.contains(q) && !before@.contains(q) implies r@.contains(
            q,
        ) by {
            let j = choose|j: int| 0 <= j < after@.len() && after@[j] == q;
        }
    }
    r
}

/// Mesh and subscription state for one topic.
pub struct Router {
    topic: TopicId,
    mesh_low: usize,
    mesh_target: usize,
    mesh_high: usize,
    peers: Vec<PeerState>,
}

impl Router {
    /// Internal invariant: ordered positive watermarks, at most one entry
    /// per peer, and mesh members are always known subscribers.
    pub closed spec fn wf(self) -> bool {
        &&& 0 < self.mesh_low <= self.mesh_target <= self.mesh_high
        &&& forall|i: int, j: int|
            0 <= i < j < self.peers@.len() ==> self.peers@[i].peer != self.peers@[j].peer
        &&& forall|i: int|
            0 <= i < self.peers@.len() ==> (#[trigger] self.peers@[i].in_mesh
                ==> self.peers@[i].subscribed)
    }

    /// The topic this router serves.
    pub closed spec fn topic(self) -> TopicId {
        self.topic
    }

    /// The low watermark: grafting starts when the open mesh is smaller.
    pub closed spec fn low(self) -> usize {
        self.mesh_low
    }

    /// The size grafting and pruning steer the open mesh towards.
    pub closed spec fn target(self) -> usize {
        self.mesh_target
    }

    /// The high watermark: pruning starts when the open mesh is larger.
    pub closed spec fn high(self) -> usize {
        self.mesh_high
    }

    /// Whether the router has any record of `p`.
    pub closed spec fn knows(self, p: PeerId) -> bool {
        exists|i: int| 0 <= i < self.peers@.len() && self.peers@[i].peer == p
    }

    /// The state recorded for `p`; meaningful only when `knows(p)`.
    pub closed spec fn state_for(self, p: PeerId) -> PeerState {
        self.peers@[choose|i: int| 0 <= i < self.peers@.len() && self.peers@[i].peer == p]
    }

    /// Whether `p` is known to be subscribed to the topic.
    pub open spec fn subscribed(self, p: PeerId) -> bool {
        self.knows(p) && self.state_for(p).subscribed
    }

    /// Whether messages on the topic are forwarded to `p`.
    pub open spec fn in_mesh(self, p: PeerId) -> bool {
        self.knows(p) && self.state_for(p).in_mesh
    }

    /// Whether `p` is an explicit peer for this router.
    pub open spec fn explicit(self, p: PeerId) -> bool {
        self.knows(p) && self.state_for(p).explicit
    }

    /// Size of the open mesh: mesh members subject to the watermarks.
    pub closed spec fn open_mesh_count(self) -> nat {
        count_open_mesh(self.peers@)
    }

    /// How many subscribed peers are subject to the watermarks.
    pub closed spec fn open_sub_count(self) -> nat {
        count_open_sub(self.peers@)
    }

    /// Size of the whole mesh, explicit members included.
    pub closed spec fn mesh_count(self) -> nat {
        count_mesh(self.peers@)
    }

    /// Whether the mesh has any member at all.
    pub open spec fn has_mesh_member(self) -> bool {
        exists|p: PeerId| self.in_mesh(p)
    }

    /// With unique peer identifiers, the entry at any index holding `p`
    /// is the state for `p`.
    proof fn lemma_state_at(self, p: PeerId, i: int)
        requires
            self.wf(),
            0 <= i < self.peers@.len(),
            self.peers@[i].peer == p,
        ensures
            self.knows(p),
            self.state_for(p) == self.peers@[i],
    {
        assert(self.knows(p));
        let j = choose|j: int| 0 <= j < self.peers@.len() && self.peers@[j].peer == p;
        if j != i {
            if i < j {
                assert(self.peers@[i].peer != self.peers@[j].peer);
            } else {
                assert(self.peers@[j].peer != self.peers@[i].peer);
            }
        }
    }

    /// Replacing the state at one index, without changing which peer it
    /// names, leaves every other peer's presence and state as they were.
    proof fn lemma_update_preserves_others(pre: Router, post: Router, i: int)
        requires
            pre.wf(),
            post.wf(),
            0 <= i < pre.peers@.len(),
            post.peers@.len() == pre.peers@.len(),
            post.peers@ == pre.peers@.update(i, post.peers@[i]),
            post.peers@[i].peer == pre.peers@[i].peer,
        ensures
            forall|q: PeerId| q != pre.peers@[i].peer ==> post.knows(q) == pre.knows(q),
            forall|q: PeerId|
                q != pre.peers@[i].peer && pre.knows(q) ==> post.state_for(q) == pre.state_for(q),
    {
        let p = pre.peers@[i].peer;
        assert forall|q: PeerId| q != p implies post.knows(q) == pre.knows(q) by {
            if pre.knows(q) {
                let k = choose|k: int| 0 <= k < pre.peers@.len() && pre.peers@[k].peer == q;
                assert(k != i);
                assert(post.peers@[k].peer == q);
            }
            if post.knows(q) {
                let k = choose|k: int| 0 <= k < post.peers@.len() && post.peers@[k].peer == q;
                assert(k != i);
                assert(pre.peers@[k].peer == q);
            }
        }
        assert forall|q: PeerId| q != p && pre.knows(q) implies post.state_for(q) == pre.state_for(
            q,
        ) by {
            let k = choose|k: int| 0 <= k < pre.peers@.len() && pre.peers@[k].peer == q;
            assert(k != i);
            pre.lemma_state_at(q, k);
            post.lemma_state_at(q, k);
        }
    }

    /// Mesh membership never includes a peer not known to be subscribed:
    /// a well-formed router forwards only to announced subscribers.
    pub proof fn lemma_mesh_members_are_subscribers(self)
        requires
            self.wf(),
        ensures
            forall|p: PeerId| self.in_mesh(p) ==> self.subscribed(p),
    {
        assert forall|p: PeerId| self.in_mesh(p) implies self.subscribed(p) by {
            let k = choose|k: int| 0 <= k < self.peers@.len() && self.peers@[k].peer == p;
            self.lemma_state_at(p, k);
        }
    }

    /// A router for `topic` with no known peers.
    pub fn new(topic: TopicId, config: &GossipConfig) -> (r: Router)
        requires
            config.wf(),
        ensures
            r.wf(),
            r.topic() == topic,
            r.low() == config.mesh_low,
            r.target() == config.mesh_target,
            r.high() == config.mesh_high,
            forall|p: PeerId| !r.knows(p),
            r.open_mesh_count() == 0,
            r.open_sub_count() == 0,
    {
        Router {
            topic,
            mesh_low: config.mesh_low,
            mesh_target: config.mesh_target,
            mesh_high: config.mesh_high,
            peers: Vec::new(),
        }
    }

    /// Index of the state for `peer`, if one exists.
    #[verifier::loop_isolation(false)]
    fn find(&self, peer: PeerId) -> (r: Option<usize>)
        requires
            self.wf(),
        ensures
            match r {
                Some(i) => i < self.peers@.len() && self.peers@[i as int].peer == peer
                    && self.knows(peer) && self.state_for(peer) == self.peers@[i as int],
                None => !self.knows(peer),
            },
    {
        let mut i: usize = 0;
        while i < self.peers.len()
            invariant
                i <= self.peers.len(),
                forall|k: int| 0 <= k < i ==> self.peers@[k].peer != peer,
            decreases self.peers.len() - i,
        {
            if self.peers[i].peer == peer {
                proof {
                    self.lemma_state_at(peer, i as int);
                }
                return Some(i);
            }
            i = i + 1;
        }
        None
    }

    /// The topic this router serves.
    pub fn topic_id(&self) -> (t: TopicId)
        ensures
            t == self.topic(),
    {
        self.topic
    }

    /// Whether `peer` is currently a mesh member.
    pub fn is_mesh_member(&self, peer: PeerId) -> (r: bool)
        requires
            self.wf(),
        ensures
            r == self.in_mesh(peer),
    {
        match self.find(peer) {
            Some(i) => self.peers[i].in_mesh,
            None => false,
        }
    }

    /// Whether `peer` is known to be subscribed.
    pub fn is_subscribed(&self, peer: PeerId) -> (r: bool)
        requires
            self.wf(),
        ensures
            r == self.subscribed(peer),
    {
        match self.find(peer) {
            Some(i) => self.peers[i].subscribed,
            None => false,
        }
    }

    /// Whether `peer` is an explicit peer.
    pub fn is_explicit_peer(&self, peer: PeerId) -> (r: bool)
        requires
            self.wf(),
        ensures
            r == self.explicit(peer),
    {
        match self.find(peer) {
            Some(i) => self.peers[i].explicit,
            None => false,
        }
    }

    /// The watermarks and peer records are untouched but for `peer`'s state.
    pub open spec fn same_but(self, pre: Router, peer: PeerId) -> bool {
        &&& self.topic() == pre.topic()
        &&& self.low() == pre.low()
        &&& self.target() == pre.target()
        &&& self.high() == pre.high()
        &&& forall|q: PeerId| q != peer ==> self.knows(q) == pre.knows(q)
        &&& forall|q: PeerId|
            q != peer && pre.knows(q) ==> self.state_for(q) == pre.state_for(q)
    }

    /// Updates the state at index `i` to `v`, which must name the same peer.
    fn set_state(&mut self, i: usize, v: PeerState)
        requires
            old(self).wf(),
            i < old(self).peers@.len(),
            v.peer == old(self).peers@[i as int].peer,
            v.in_mesh ==> v.subscribed,
        ensures
            final(self).wf(),
            final(self).peers@ == old(self).peers@.update(i as int, v),
            final(self).knows(v.peer) && final(self).state_for(v.peer) == v,
            final(self).same_but(*old(self), v.peer),
            final(self).topic == old(self).topic,
            final(self).mesh_low == old(self).mesh_low,
            final(self).mesh_target == old(self).mesh_target,
            final(self).mesh_high == old(self).mesh_high,
    {
        let ghost pre = *self;
        self.peers.set(i, v);
        proof {
            assert(self.wf()) by {
                assert(forall|k: int|
                    0 <= k < self.peers@.len() ==> self.peers@[k].peer == pre.peers@[k].peer);
            }
            self.lemma_state_at(v.peer, i as int);
            Self::lemma_update_preserves_others(pre, *self, i as int);
        }
    }

    /// Adds a record for an unknown `peer`, initially not subscribed.
    fn push_state(&mut self, v: PeerState)
        requires
            old(self).wf(),
            !old(self).knows(v.peer),
            v.in_mesh ==> v.subscribed,
        ensures
            final(self).wf(),
            final(self).knows(v.peer) && final(self).state_for(v.peer) == v,
            final(self).same_but(*old(self), v.peer),
            final(self).topic == old(self).topic,
            final(self).mesh_low == old(self).mesh_low,
            final(self).mesh_target == old(self).mesh_target,
            final(self).mesh_high == old(self).mesh_high,
    {
        let ghost pre = *self;
        let ghost n = pre.peers@.len() as int;
        self.peers.push(v);
        proof {
            assert(forall|k: int| 0 <= k < n ==> self.peers@[k] == pre.peers@[k]);
            assert(self.wf()) by {
                assert forall|i: int, j: int|
                    0 <= i < j < self.peers@.len() implies self.peers@[i].peer
                    != self.peers@[j].peer by {
                    if j == n && self.peers@[i].peer == v.peer {
                        pre.lemma_state_at(v.peer, i);
                    }
                }
            }
            self.lemma_state_at(v.peer, n);
            assert forall|q: PeerId| q != v.peer implies self.knows(q) == pre.knows(q) by {
                if pre.knows(q) {
                    let k = choose|k: int| 0 <= k < pre.peers@.len() && pre.peers@[k].peer == q;
                    assert(self.peers@[k].peer == q);
                }
                if self.knows(q) {
                    let k = choose|k: int| 0 <= k < self.peers@.len() && self.peers@[k].peer == q;
                    assert(k != n);
                    assert(pre.peers@[k].peer == q);
                }
            }
            assert forall|q: PeerId| q != v.peer && pre.knows(q) implies self.state_for(q)
                == pre.state_for(q) by {
                let k = choose|k: int| 0 <= k < pre.peers@.len() && pre.peers@[k].peer == q;
                pre.lemma_state_at(q, k);
                self.lemma_state_at(q, k);
            }
        }
    }

    /// Marks `peer` explicit: always kept, never pruned, forwarded to while
    /// subscribed regardless of the watermarks. Its subscription and mesh
    /// state are untouched.
    pub fn add_explicit_peer(&mut self, peer: PeerId)
        requires
            old(self).wf(),
        ensures
            final(self).wf(),
            final(self).knows(peer),
            final(self).explicit(peer),
            final(self).subscribed(peer) == old(self).subscribed(peer),
            final(self).in_mesh(peer) == old(self).in_mesh(peer),
            final(self).same_but(*old(self), peer),
    {
        match self.find(peer) {
            Some(i) => {
                let mut v = self.peers[i];
                v.explicit = true;
                self.set_state(i, v);
            },
            None => {
                self.push_state(
                    PeerState { peer, subscribed: false, in_mesh: false, explicit: true },
                );
            },
        }
    }

    /// Removes the explicit mark from `peer`. Its subscription and mesh
    /// state are untouched; an unknown peer is ignored.
    pub fn remove_explicit_peer(&mut self, peer: PeerId)
        requires
            old(self).wf(),
        ensures
            final(self).wf(),
            !final(self).explicit(peer),
            final(self).knows(peer) == old(self).knows(peer),
            final(self).subscribed(peer) == old(self).subscribed(peer),
            final(self).in_mesh(peer) == old(self).in_mesh(peer),
            final(self).same_but(*old(self), peer),
    {
        match self.find(peer) {
            Some(i) => {
                let mut v = self.peers[i];
                v.explicit = false;
                self.set_state(i, v);
            },
            None => {},
        }
    }

    /// Records a subscribe control message from `peer`: it becomes a known
    /// subscriber and a grafting candidate at the next heartbeat.
    pub fn on_subscribe(&mut self, peer: PeerId)
        requires
            old(self).wf(),
        ensures
            final(self).wf(),
            final(self).knows(peer),
            final(self).subscribed(peer),
            final(self).in_mesh(peer) == old(self).in_mesh(peer),
            final(self).explicit(peer) == old(self).explicit(peer),
            final(self).same_but(*old(self), peer),
    {
        match self.find(peer) {
            Some(i) => {
                let mut v = self.peers[i];
                v.subscribed = true;
                self.set_state(i, v);
            },
            None => {
                self.push_state(
                    PeerState { peer, subscribed: true, in_mesh: false, explicit: false },
                );
            },
        }
    }

    /// Records an unsubscribe control message from `peer`: it leaves the
    /// mesh immediately and is no longer a known subscriber. An unknown
    /// peer is ignored.
    pub fn on_unsubscribe(&mut self, peer: PeerId)
        requires
            old(self).wf(),
        ensures
            final(self).wf(),
            !final(self).subscribed(peer),
            !final(self).in_mesh(peer),
            final(self).knows(peer) == old(self).knows(peer),
            final(self).explicit(peer) == old(self).explicit(peer),
            final(self).same_but(*old(self), peer),
    {
        match self.find(peer) {
            Some(i) => {
                let mut v = self.peers[i];
                v.subscribed = false;
                v.in_mesh = false;
                self.set_state(i, v);
            },
            None => {},
        }
    }

    /// The peer's connection closed: it is removed from the mesh and from
    /// the subscriber records at once. An unknown peer is ignored.
    pub fn on_disconnect(&mut self, peer: PeerId)
        requires
            old(self).wf(),
        ensures
            final(self).wf(),
            !final(self).knows(peer),
            final(self).same_but(*old(self), peer),
    {
        let ghost pre = *self;
        match self.find(peer) {
            Some(i) => {
                self.peers.remove(i);
                proof {
                    pre.peers@.remove_ensures(i as int);
                    assert(self.wf()) by {
                        assert forall|k1: int, k2: int|
                            0 <= k1 < k2 < self.peers@.len() implies self.peers@[k1].peer
                            != self.peers@[k2].peer by {
                            let m1: int = if k1 < i { k1 } else { k1 + 1 };
                            let m2: int = if k2 < i { k2 } else { k2 + 1 };
                            assert(self.peers@[k1] == pre.peers@[m1]);
                            assert(self.peers@[k2] == pre.peers@[m2]);
                        }
                    }
                    assert(!self.knows(peer)) by {
                        if self.knows(peer) {
                            let k = choose|k: int|
                                0 <= k < self.peers@.len() && self.peers@[k].peer == peer;
                            let m: int = if k < i { k } else { k + 1 };
                            assert(pre.peers@[m].peer == peer);
                            pre.lemma_state_at(peer, m);
                            pre.lemma_state_at(peer, i as int);
                        }
                    }
                    assert forall|q: PeerId| q != peer implies self.knows(q) == pre.knows(q) by {
                        if pre.knows(q) {
                            let m = choose|m: int|
                                0 <= m < pre.peers@.len() && pre.peers@[m].peer == q;
                            let k: int = if m < i { m } else { m - 1 };
                            assert(m != i);
                            assert(self.peers@[k].peer == q);
                        }
                        if self.knows(q) {
                            let k = choose|k: int|
                                0 <= k < self.peers@.len() && self.peers@[k].peer == q;
                            let m: int = if k < i { k } else { k + 1 };
                            assert(pre.peers@[m].peer == q);
                        }
                    }
                    assert forall|q: PeerId| q != peer && pre.knows(q) implies self.state_for(q)
                        == pre.state_for(q) by {
                        let m = choose|m: int|
                            0 <= m < pre.peers@.len() && pre.peers@[m].peer == q;
                        let k: int = if m < i { m } else { m - 1 };
                        assert(m != i);
                        assert(self.peers@[k] == pre.peers@[m]);
                        pre.lemma_state_at(q, m);
                        self.lemma_state_at(q, k);
                    }
                }
            },
            None => {},
        }
    }

    /// The peers a message on the topic is forwarded to: every mesh
    /// member, except the peer the message came from. Each appears once.
    #[verifier::loop_isolation(false)]
    pub fn mesh_targets(&self, exclude: Option<PeerId>) -> (r: Vec<PeerId>)
        requires
            self.wf(),
        ensures
            forall|k: int|
                0 <= k < r@.len() ==> self.in_mesh(#[trigger] r@[k]) && Some(r@[k]) != exclude,
            forall|p: PeerId| self.in_mesh(p) && Some(p) != exclude ==> r@.contains(p),
            forall|k1: int, k2: int| 0 <= k1 < k2 < r@.len() ==> r@[k1] != r@[k2],
    {
        let mut r: Vec<PeerId> = Vec::new();
        let mut i: usize = 0;
        while i < self.peers.len()
            invariant
                i <= self.peers.len(),
                targets_sound(self.peers@, r@, i as int),
                forall|k: int| 0 <= k < r@.len() ==> Some(#[trigger] r@[k]) != exclude,
                forall|j: int|
                    0 <= j < i && self.peers@[j].in_mesh && Some(#[trigger] self.peers@[j].peer)
                        != exclude ==> r@.contains(self.peers@[j].peer),
                forall|k1: int, k2: int| 0 <= k1 < k2 < r@.len() ==> r@[k1] != r@[k2],
            decreases self.peers.len() - i,
        {
            let ghost prev = r@;
            let s = self.peers[i];
            let excluded = match exclude {
                Some(x) => s.peer == x,
                None => false,
            };
            if s.in_mesh && !excluded {
                proof {
                    assert forall|k: int| 0 <= k < r@.len() implies r@[k] != s.peer by {
                        assert(mesh_in_prefix(self.peers@, r@[k], i as int));
                        let j = choose|j: int|
                            0 <= j < i && (#[trigger] self.peers@[j]).peer == r@[k]
                                && self.peers@[j].in_mesh;
                        assert(self.peers@[j].peer != self.peers@[i as int].peer);
                    }
                }
                r.push(s.peer);
                proof {
                    let m = prev.len() as int;
                    assert(r@[m] == s.peer);
                    assert forall|k: int| 0 <= k < r@.len() implies mesh_in_prefix(
                        self.peers@,
                        #[trigger] r@[k],
                        i as int + 1,
                    ) by {
                        if k < m {
                            lemma_mesh_in_prefix_widen(self.peers@, r@[k], i as int, i as int + 1);
                        } else {
                            assert((self.peers@[i as int]).peer == r@[k]
                                && self.peers@[i as int].in_mesh);
                        }
                    }
                    assert forall|j: int|
                        0 <= j < i + 1 && self.peers@[j].in_mesh && Some(self.peers@[j].peer)
                            != exclude implies r@.contains(self.peers@[j].peer) by {
                        if j < i {
                            let k = choose|k: int|
                                0 <= k < prev.len() && prev[k] == self.peers@[j].peer;
                            assert(r@[k] == self.peers@[j].peer);
                        } else {
                            assert(r@[m] == self.peers@[j].peer);
                        }
                    }
                }
            } else {
                proof {
                    assert forall|k: int| 0 <= k < r@.len() implies mesh_in_prefix(
                        self.peers@,
                        #[trigger] r@[k],
                        i as int + 1,
                    ) by {
                        lemma_mesh_in_prefix_widen(self.peers@, r@[k], i as int, i as int + 1);
                    }
                    assert forall|j: int|
                        0 <= j < i + 1 && self.peers@[j].in_mesh && Some(self.peers@[j].peer)
                            != exclude implies r@.contains(self.peers@[j].peer) by {
                        if j < i {
                            assert(r@.contains(self.peers@[j].peer));
                        } else {
                            assert(!self.peers@[j].in_mesh || Some(self.peers@[j].peer)
                                == exclude);
                        }
                    }
                }
            }
            i = i + 1;
        }
        proof {
            assert forall|k: int| 0 <= k < r@.len() implies self.in_mesh(r@[k]) && Some(
                #[trigger] r@[k],
            ) != exclude by {
                assert(mesh_in_prefix(self.peers@, r@[k], self.peers@.len() as int));
                let j = choose|j: int|
                    0 <= j < self.peers@.len() && (#[trigger] self.peers@[j]).peer == r@[k]
                        && self.peers@[j].in_mesh;
                self.lemma_state_at(r@[k], j);
            }
            assert forall|p: PeerId| self.in_mesh(p) && Some(p) != exclude implies r@.contains(
                p,
            ) by {
                let j = choose|j: int| 0 <= j < self.peers@.len() && self.peers@[j].peer == p;
                self.lemma_state_at(p, j);
            }
        }
        r
    }

    /// Size of the open mesh: mesh members subject to the watermarks.
    #[verifier::loop_isolation(false)]
    pub fn open_mesh_size(&self) -> (c: usize)
        requires
            self.wf(),
        ensures
            c == self.open_mesh_count(),
    {
        let mut c: usize = 0;
        let mut i: usize = 0;
        while i < self.peers.len()
            invariant
                i <= self.peers.len(),
                c <= i,
                c == count_open_mesh(self.peers@.take(i as int)),
            decreases self.peers.len() - i,
        {
            let s = self.peers[i];
            proof {
                lemma_open_mesh_take_step(self.peers@, i as int);
            }
            if s.in_mesh && !s.explicit {
                c = c + 1;
            }
            i = i + 1;
        }
        proof {
            assert(self.peers@.take(self.peers@.len() as int) =~= self.peers@);
        }
        c
    }

    /// How many subscribed peers are subject to the watermarks.
    #[verifier::loop_isolation(false)]
    pub fn open_sub_size(&self) -> (c: usize)
        requires
            self.wf(),
        ensures
            c == self.open_sub_count(),
    {
        let mut c: usize = 0;
        let mut i: usize = 0;
        while i < self.peers.len()
            invariant
                i <= self.peers.len(),
                c <= i,
                c == count_open_sub(self.peers@.take(i as int)),
            decreases self.peers.len() - i,
        {
            let s = self.peers[i];
            proof {
                assert(self.peers@.take(i as int + 1).drop_last() =~= self.peers@.take(i as int));
                assert(self.peers@.take(i as int + 1).last() == self.peers@[i as int]);
            }
            if s.subscribed && !s.explicit {
                c = c + 1;
            }
            i = i + 1;
        }
        proof {
            assert(self.peers@.take(self.peers@.len() as int) =~= self.peers@);
        }
        c
    }

    /// Size of the whole mesh, explicit members included.
    #[verifier::loop_isolation(false)]
    pub fn mesh_size(&self) -> (c: usize)
        requires
            self.wf(),
        ensures
            c == self.mesh_count(),
    {
        let mut c: usize = 0;
        let mut i: usize = 0;
        while i < self.peers.len()
            invariant
                i <= self.peers.len(),
                c <= i,
                c == count_mesh(self.peers@.take(i as int)),
            decreases self.peers.len() - i,
        {
            let s = self.peers[i];
            proof {
                assert(self.peers@.take(i as int + 1).drop_last() =~= self.peers@.take(i as int));
                assert(self.peers@.take(i as int + 1).last() == self.peers@[i as int]);
            }
            if s.in_mesh {
                c = c + 1;
            }
            i = i + 1;
        }
        proof {
            assert(self.peers@.take(self.peers@.len() as int) =~= self.peers@);
        }
        c
    }

    /// Mesh maintenance, run once per heartbeat. Every explicit subscribed
    /// peer is grafted. If the open mesh is under the low watermark,
    /// subscribed candidates are grafted until it reaches the target or no
    /// candidate is left; if it is over the high watermark, non-explicit
    /// members are pruned down to the target. Explicit peers are never
    /// pruned, and no record, subscription or explicit mark changes.
    #[verifier::loop_isolation(false)]
    pub fn heartbeat(&mut self)
        requires
            old(self).wf(),
        ensures
            final(self).wf(),
            final(self).topic() == old(self).topic(),
            final(self).low() == old(self).low(),
            final(self).target() == old(self).target(),
            final(self).high() == old(self).high(),
            forall|p: PeerId| final(self).knows(p) == old(self).knows(p),
            forall|p: PeerId| final(self).subscribed(p) == old(self).subscribed(p),
            forall|p: PeerId| final(self).explicit(p) == old(self).explicit(p),
            forall|p: PeerId|
                final(self).explicit(p) && final(self).subscribed(p) ==> final(self).in_mesh(p),
            final(self).open_mesh_count() <= final(self).high(),
            final(self).open_mesh_count() >= final(self).low() || final(self).open_mesh_count()
                == final(self).open_sub_count(),
            final(self).open_sub_count() == old(self).open_sub_count(),
            final(self).mesh_count() >= final(self).open_mesh_count(),
            final(self).mesh_count() >= final(self).low() || final(self).open_mesh_count()
                == final(self).open_sub_count(),
            old(self).open_mesh_count() < old(self).low() ==> final(self).open_mesh_count()
                == final(self).target() || final(self).open_mesh_count() == final(self).open_sub_count(),
            old(self).open_mesh_count() > old(self).high() ==> final(self).open_mesh_count()
                == final(self).target(),
            old(self).low() <= old(self).open_mesh_count() <= old(self).high() ==> (forall|
                p: PeerId,
            |
                final(self).in_mesh(p) == (old(self).in_mesh(p) || (old(self).explicit(p) && old(self).subscribed(p)))),
    {
        let ghost pre = *self;
        let n = self.peers.len();
        let mut i: usize = 0;
        while i < n
            invariant
                i <= n,
                n == self.peers.len(),
                self.wf(),
                self.topic == pre.topic,
                self.mesh_low == pre.mesh_low,
                self.mesh_target == pre.mesh_target,
                self.mesh_high == pre.mesh_high,
                self.peers@.len() == pre.peers@.len(),
                forall|k: int|
                    0 <= k < n ==> (#[trigger] self.peers@[k]).peer == pre.peers@[k].peer
                        && self.peers@[k].subscribed == pre.peers@[k].subscribed
                        && self.peers@[k].explicit == pre.peers@[k].explicit,
                forall|k: int|
                    0 <= k < i && (#[trigger] self.peers@[k]).explicit
                        && self.peers@[k].subscribed ==> self.peers@[k].in_mesh,
                forall|k: int|
                    0 <= k < n && pre.peers@[k].in_mesh ==> (#[trigger] self.peers@[k]).in_mesh,
                forall|k: int|
                    0 <= k < n && (#[trigger] self.peers@[k]).in_mesh ==> pre.peers@[k].in_mesh
                        || (self.peers@[k].explicit && self.peers@[k].subscribed),
                count_open_mesh(self.peers@) == count_open_mesh(pre.peers@),
                count_open_sub(self.peers@) == count_open_sub(pre.peers@),
            decreases n - i,
        {
            let s = self.peers[i];
            if s.explicit && s.subscribed && !s.in_mesh {
                let ghost before = self.peers@;
                let mut v = s;
                v.in_mesh = true;
                self.peers.set(i, v);
                proof {
                    lemma_open_mesh_update(before, i as int, v);
                    lemma_open_sub_update(before, i as int, v);
                    assert(self.wf()) by {
                        assert(forall|k: int|
                            0 <= k < self.peers@.len() ==> self.peers@[k].peer
                                == before[k].peer);
                    }
                }
            }
            i = i + 1;
        }
        let ghost grafted_explicit = *self;
        let mut c: usize = self.open_mesh_size();
        if c < self.mesh_low {
            let mut i: usize = 0;
            while i < n && c < self.mesh_target
                invariant
                    i <= n,
                    n == self.peers.len(),
                    self.wf(),
                    self.topic == pre.topic,
                    self.mesh_low == pre.mesh_low,
                    self.mesh_target == pre.mesh_target,
                    self.mesh_high == pre.mesh_high,
                    self.peers@.len() == pre.peers@.len(),
                    forall|k: int|
                        0 <= k < n ==> (#[trigger] self.peers@[k]).peer == pre.peers@[k].peer
                            && self.peers@[k].subscribed == pre.peers@[k].subscribed
                            && self.peers@[k].explicit == pre.peers@[k].explicit,
                    forall|k: int|
                        0 <= k < n && (#[trigger] self.peers@[k]).explicit
                            && self.peers@[k].subscribed ==> self.peers@[k].in_mesh,
                    c == count_open_mesh(self.peers@),
                    c <= self.mesh_target,
                    count_open_sub(self.peers@) == count_open_sub(pre.peers@),
                    c == self.mesh_target || (forall|k: int|
                        0 <= k < i && open_sub_member(#[trigger] self.peers@[k])
                            ==> self.peers@[k].in_mesh),
                decreases n - i,
            {
                let s = self.peers[i];
                if !s.explicit && s.subscribed && !s.in_mesh {
                    let ghost before = self.peers@;
                    let mut v = s;
                    v.in_mesh = true;
                    self.peers.set(i, v);
                    proof {
                        lemma_open_mesh_update(before, i as int, v);
                        lemma_open_sub_update(before, i as int, v);
                        assert(self.wf()) by {
                            assert(forall|k: int|
                                0 <= k < self.peers@.len() ==> self.peers@[k].peer
                                    == before[k].peer);
                        }
                    }
                    c = c + 1;
                }
                i = i + 1;
            }
            proof {
                if c < self.mesh_target {
                    assert(forall|k: int|
                        0 <= k < n && open_sub_member(#[trigger] self.peers@[k])
                            ==> self.peers@[k].in_mesh);
                    lemma_counts_eq_when_all_grafted(self.peers@);
                }
            }
        } else if c > self.mesh_high {
            let mut i: usize = 0;
            proof {
                assert(self.peers@.take(0) =~= Seq::<PeerState>::empty());
            }
            while i < n && c > self.mesh_target
                invariant
                    i <= n,
                    n == self.peers.len(),
                    self.wf(),
                    self.topic == pre.topic,
                    self.mesh_low == pre.mesh_low,
                    self.mesh_target == pre.mesh_target,
                    self.mesh_high == pre.mesh_high,
                    self.peers@.len() == pre.peers@.len(),
                    forall|k: int|
                        0 <= k < n ==> (#[trigger] self.peers@[k]).peer == pre.peers@[k].peer
                            && self.peers@[k].subscribed == pre.peers@[k].subscribed
                            && self.peers@[k].explicit == pre.peers@[k].explicit,
                    forall|k: int|
                        0 <= k < n && (#[trigger] self.peers@[k]).explicit
                            && self.peers@[k].subscribed ==> self.peers@[k].in_mesh,
                    c == count_open_mesh(self.peers@),
                    c >= self.mesh_target,
                    count_open_sub(self.peers@) == count_open_sub(pre.peers@),
                    c == self.mesh_target || count_open_mesh(self.peers@.take(i as int)) == 0,
                decreases n - i,
            {
                let s = self.peers[i];
                if s.in_mesh && !s.explicit {
                    let ghost before = self.peers@;
                    let mut v = s;
                    v.in_mesh = false;
                    self.peers.set(i, v);
                    proof {
                        lemma_open_mesh_update(before, i as int, v);
                        lemma_open_sub_update(before, i as int, v);
                        assert(self.wf()) by {
                            assert(forall|k: int|
                                0 <= k < self.peers@.len() ==> self.peers@[k].peer
                                    == before[k].peer);
                        }
                        assert(self.peers@.take(i as int) =~= before.take(i as int));
                        lemma_open_mesh_take_step(self.peers@, i as int);
                        assert(!open_mesh_member(self.peers@[i as int]));
                    }
                    c = c - 1;
                } else {
                    proof {
                        lemma_open_mesh_take_step(self.peers@, i as int);
                    }
                }
                i = i + 1;
            }
            proof {
                if c > self.mesh_target {
                    assert(i == n);
                    assert(self.peers@.take(n as int) =~= self.peers@);
                    assert(count_open_mesh(self.peers@) == 0);
                    assert(false);
                }
                assert(c == self.mesh_target);
            }
        } else {
            proof {
                assert forall|p: PeerId|
                    self.in_mesh(p) == (pre.in_mesh(p) || (pre.explicit(p) && pre.subscribed(
                        p,
                    ))) by {
                    if pre.knows(p) {
                        let k = choose|k: int|
                            0 <= k < pre.peers@.len() && pre.peers@[k].peer == p;
                        pre.lemma_state_at(p, k);
                        self.lemma_state_at(p, k);
                    } else {
                        if self.knows(p) {
                            let k = choose|k: int|
                                0 <= k < self.peers@.len() && self.peers@[k].peer == p;
                            assert(pre.peers@[k].peer == p);
                        }
                    }
                }
            }
        }
        proof {
            lemma_open_mesh_le_mesh(self.peers@);
            assert(c == count_open_mesh(self.peers@));
            assert(count_open_mesh(self.peers@) <= self.mesh_high);
            assert(count_open_mesh(self.peers@) >= self.mesh_low || count_open_mesh(self.peers@)
                == count_open_sub(self.peers@));
            assert forall|p: PeerId| self.knows(p) == pre.knows(p) by {
                if pre.knows(p) {
                    let k = choose|k: int| 0 <= k < pre.peers@.len() && pre.peers@[k].peer == p;
                    assert(self.peers@[k].peer == p);
                }
                if self.knows(p) {
                    let k = choose|k: int|
                        0 <= k < self.peers@.len() && self.peers@[k].peer == p;
                    assert(pre.peers@[k].peer == p);
                }
            }
            assert forall|p: PeerId| pre.knows(p) implies self.subscribed(p) == pre.subscribed(p)
                && self.explicit(p) == pre.explicit(p) by {
                let k = choose|k: int| 0 <= k < pre.peers@.len() && pre.peers@[k].peer == p;
                pre.lemma_state_at(p, k);
                self.lemma_state_at(p, k);
            }
            assert forall|p: PeerId| self.explicit(p) && self.subscribed(p) implies self.in_mesh(
                p,
            ) by {
                let k = choose|k: int| 0 <= k < self.peers@.len() && self.peers@[k].peer == p;
                self.lemma_state_at(p, k);
            }
        }
    }
}

} // verus!
