//! Message deduplication: content-derived message identifiers and a
//! TTL-bounded cache of recently seen identifiers.
//!
//! `identify` hashes a payload with 64-bit FNV-1a, so byte-identical
//! payloads always map to the same [`MessageId`]. Hash collisions are
//! treated as true duplicates by design: the hash space is large relative
//! to expected traffic.

use crate::ids::MessageId;
use vstd::prelude::*;

verus! {

/// FNV-1a 64-bit offset basis.
pub const FNV_OFFSET: u64 = 0xcbf2_9ce4_8422_2325;

/// FNV-1a 64-bit prime.
pub const FNV_PRIME: u64 = 0x0000_0100_0000_01b3;

/// One FNV-1a round: fold one byte into the running hash.
pub open spec fn fnv_step(h: u64, b: u8) -> u64 {
    (h ^ (b as u64)).wrapping_mul(FNV_PRIME)
}

/// FNV-1a hash of the first `n` bytes of `bytes`.
pub open spec fn fnv_prefix(bytes: Seq<u8>, n: int) -> u64
    decreases n,
{
    if n <= 0 {
        FNV_OFFSET
    } else {
        fnv_step(fnv_prefix(bytes, n - 1), bytes[n - 1])
    }
}

/// The content-derived identifier of a payload: a function of the payload
/// bytes alone.
pub open spec fn id_of(bytes: Seq<u8>) -> MessageId {
    MessageId { hash: fnv_prefix(bytes, bytes.len() as int) }
}

/// Computes the content-derived identifier of `payload`.
pub fn identify(payload: &Vec<u8>) -> (id: MessageId)
    ensures
        id == id_of(payload@),
{
    let mut h: u64 = FNV_OFFSET;
    let mut i: usize = 0;
    while i < payload.len()
        invariant
            i <= payload.len(),
            h == fnv_prefix(payload@, i as int),
        decreases payload.len() - i,
    {
        h = (h ^ (payload[i] as u64)).wrapping_mul(FNV_PRIME);
        i = i + 1;
    }
    MessageId { hash: h }
}

/// The identifier is derived from payload content alone: equal payloads
/// always receive equal identifiers, whoever sends them and whenever they
/// are hashed.
pub proof fn lemma_identify_deterministic(p1: Seq<u8>, p2: Seq<u8>)
    requires
        p1 == p2,
    ensures
        id_of(p1) == id_of(p2),
{
}

/// One identifier the cache has seen, and when it was last recorded.
#[derive(Clone, Copy, Debug, PartialEq, Eq, Structural)]
struct SeenEntry {
    id: MessageId,
    recorded_at: u64,
}

/// Bounded map from message identifier to the time it was last recorded.
/// An identifier counts as seen until a fixed time-to-live window after
/// its recording has elapsed; expiry is time-based and independent of
/// cache size.
pub struct SeenCache {
    entries: Vec<SeenEntry>,
    ttl: u64,
}

impl SeenCache {
    /// Internal invariant: positive time-to-live and at most one entry
    /// per identifier.
    pub closed spec fn wf(self) -> bool {
        &&& 0 < self.ttl
        &&& forall|i: int, j: int|
            0 <= i < j < self.entries@.len() ==> self.entries@[i].id != self.entries@[j].id
    }

    /// The configured time-to-live window.
    pub closed spec fn ttl(self) -> u64 {
        self.ttl
    }

    /// How many identifiers the cache currently holds.
    pub closed spec fn len(self) -> nat {
        self.entries@.len()
    }

    /// Whether `id` counts as seen at time `now`: it was recorded and its
    /// time-to-live window has not yet elapsed.
    pub closed spec fn seen_at(self, id: MessageId, now: u64) -> bool {
        exists|i: int|
            0 <= i < self.entries@.len() && self.entries@[i].id == id && now < self.entries@[i].recorded_at
                + self.ttl
    }

    /// An empty cache with the given time-to-live window.
    pub fn new(ttl: u64) -> (cache: SeenCache)
        requires
            0 < ttl,
        ensures
            cache.wf(),
            cache.ttl() == ttl,
            cache.len() == 0,
            forall|id: MessageId, t: u64| !cache.seen_at(id, t),
    {
        SeenCache { entries: Vec::new(), ttl }
    }

    /// Whether `id` counts as seen at time `now`, without recording it.
    #[verifier::loop_isolation(false)]
    pub fn is_seen(&self, id: MessageId, now: u64) -> (r: bool)
        requires
            self.wf(),
        ensures
            r == self.seen_at(id, now),
    {
        let mut i: usize = 0;
        while i < self.entries.len()
            invariant
                self.wf(),
                i <= self.entries.len(),
                forall|k: int|
                    0 <= k < i ==> !(self.entries@[k].id == id && now
                        < self.entries@[k].recorded_at + self.ttl),
            decreases self.entries.len() - i,
        {
            let e = self.entries[i];
            if e.id == id && (now < e.recorded_at || now - e.recorded_at < self.ttl) {
                return true;
            }
            i = i + 1;
        }
        false
    }

    /// Atomic check-and-insert: if `id` is still seen at `now`, report it
    /// as a duplicate and change nothing; otherwise record it at `now` and
    /// report it fresh. Entries for other identifiers are untouched.
    #[verifier::loop_isolation(false)]
    pub fn check_and_record(&mut self, id: MessageId, now: u64) -> (fresh: bool)
        requires
            old(self).wf(),
        ensures
            final(self).wf(),
            final(self).ttl() == old(self).ttl(),
            fresh == !old(self).seen_at(id, now),
            !fresh ==> *final(self) == *old(self),
            fresh ==> forall|t: u64| final(self).seen_at(id, t) == (t < now + old(self).ttl()),
            forall|j: MessageId, t: u64|
                j != id ==> final(self).seen_at(j, t) == old(self).seen_at(j, t),
            final(self).len() <= old(self).len() + 1,
    {
        let ghost old_entries = self.entries@;
        let ghost old_ttl = self.ttl;
        let mut i: usize = 0;
        while i < self.entries.len()
            invariant
                *self == *old(self),
                i <= self.entries.len(),
                forall|k: int| 0 <= k < i ==> self.entries@[k].id != id,
            decreases self.entries.len() - i,
        {
            let e = self.entries[i];
            if e.id == id {
                proof {
                    assert forall|k: int|
                        0 <= k < old_entries.len() && #[trigger] old_entries[k].id
                            == id implies k == i by {
                        if k != i {
                            if k < i {
                                assert(old_entries[k].id != id);
                            } else {
                                assert(old_entries[i as int].id != old_entries[k].id);
                            }
                        }
                    }
                }
                if now < e.recorded_at || now - e.recorded_at < self.ttl {
                    assert(old(self).seen_at(id, now)) by {
                        assert(old_entries[i as int].id == id && now < old_entries[i as int].recorded_at
                            + old_ttl);
                    }
                    return false;
                }
                assert(!old(self).seen_at(id, now));
                self.entries.set(i, SeenEntry { id, recorded_at: now });
                proof {
                    assert forall|t: u64| self.seen_at(id, t) == (t < now + old_ttl) by {
                        if t < now + old_ttl {
                            assert(self.entries@[i as int].id == id && t
                                < self.entries@[i as int].recorded_at + self.ttl);
                        }
                        if self.seen_at(id, t) {
                            let k = choose|k: int|
                                0 <= k < self.entries@.len() && self.entries@[k].id == id && t
                                    < self.entries@[k].recorded_at + self.ttl;
                            assert(k == i);
                        }
                    }
                    assert forall|j: MessageId, t: u64| j != id implies self.seen_at(j, t) == old(self).seen_at(j, t) by {
                        if old(self).seen_at(j, t) {
                            let k = choose|k: int|
                                0 <= k < old_entries.len() && old_entries[k].id == j && t
                                    < old_entries[k].recorded_at + old_ttl;
                            assert(k != i);
                            assert(self.entries@[k].id == j && t < self.entries@[k].recorded_at
                                + self.ttl);
                        }
                        if self.seen_at(j, t) {
                            let k = choose|k: int|
                                0 <= k < self.entries@.len() && self.entries@[k].id == j && t
                                    < self.entries@[k].recorded_at + self.ttl;
                            assert(k != i);
                            assert(old_entries[k].id == j && t < old_entries[k].recorded_at
                                + old_ttl);
                        }
                    }
                }
                return true;
            }
            i = i + 1;
        }
        assert(!old(self).seen_at(id, now));
        self.entries.push(SeenEntry { id, recorded_at: now });
        proof {
            let n = old_entries.len() as int;
            assert(self.entries@[n].id == id);
            assert forall|t: u64| self.seen_at(id, t) == (t < now + old_ttl) by {
                if t < now + old_ttl {
                    assert(self.entries@[n].id == id && t < self.entries@[n].recorded_at
                        + self.ttl);
                }
                if self.seen_at(id, t) {
                    let k = choose|k: int|
                        0 <= k < self.entries@.len() && self.entries@[k].id == id && t
                            < self.entries@[k].recorded_at + self.ttl;
                    assert(k == n);
                }
            }
            assert forall|j: MessageId, t: u64| j != id implies self.seen_at(j, t) == old(self).seen_at(j, t) by {
                if old(self).seen_at(j, t) {
                    let k = choose|k: int|
                        0 <= k < old_entries.len() && old_entries[k].id == j && t
                            < old_entries[k].recorded_at + old_ttl;
                    assert(self.entries@[k].id == j && t < self.entries@[k].recorded_at
                        + self.ttl);
                }
                if self.seen_at(j, t) {
                    let k = choose|k: int|
                        0 <= k < self.entries@.len() && self.entries@[k].id == j && t
                            < self.entries@[k].recorded_at + self.ttl;
                    assert(k != n);
                    assert(old_entries[k].id == j && t < old_entries[k].recorded_at + old_ttl);
                }
            }
        }
        true
    }

    /// Drops every entry whose time-to-live window has elapsed at `now`.
    /// Whether an identifier counts as seen at `now` or later is
    /// unchanged, no identifier becomes seen that was not, and every
    /// identifier the cache still answers for was still live at `now`:
    /// elapsed entries are gone.
    #[verifier::loop_isolation(false)]
    pub fn sweep(&mut self, now: u64)
        requires
            old(self).wf(),
        ensures
            final(self).wf(),
            final(self).ttl() == old(self).ttl(),
            final(self).len() <= old(self).len(),
            forall|id: MessageId, t: u64|
                now <= t ==> final(self).seen_at(id, t) == old(self).seen_at(id, t),
            forall|id: MessageId, t: u64| final(self).seen_at(id, t) ==> old(self).seen_at(id, t),
            forall|id: MessageId, t: u64| final(self).seen_at(id, t) ==> old(self).seen_at(id, now),
    {
        let ghost old_entries = self.entries@;
        let ghost old_ttl = self.ttl;
        let mut kept: Vec<SeenEntry> = Vec::new();
        let mut i: usize = 0;
        while i < self.entries.len()
            invariant
                self.wf(),
                self.entries@ == old_entries,
                self.ttl == old_ttl,
                i <= self.entries.len(),
                kept@.len() <= i,
                forall|k: int|
                    0 <= k < kept@.len() ==> exists|j: int|
                        0 <= j < i && old_entries[j] == #[trigger] kept@[k],
                forall|k: int|
                    0 <= k < kept@.len() ==> now < #[trigger] kept@[k].recorded_at + old_ttl,
                forall|j: int|
                    0 <= j < i && now < old_entries[j].recorded_at + old_ttl ==> exists|k: int|
                        0 <= k < kept@.len() && kept@[k] == #[trigger] old_entries[j],
                forall|k1: int, k2: int|
                    0 <= k1 < k2 < kept@.len() ==> kept@[k1].id != kept@[k2].id,
            decreases self.entries.len() - i,
        {
            let ghost prev_kept = kept@;
            let e = self.entries[i];
            if now < e.recorded_at || now - e.recorded_at < self.ttl {
                proof {
                    assert forall|k: int| 0 <= k < kept@.len() implies kept@[k].id != e.id by {
                        let j = choose|j: int| 0 <= j < i && old_entries[j] == kept@[k];
                        assert(old_entries[j].id == kept@[k].id);
                        assert(old_entries[i as int].id == e.id);
                    }
                }
                kept.push(e);
                proof {
                    let m = prev_kept.len() as int;
                    assert(kept@[m] == old_entries[i as int]);
                    assert forall|j: int|
                        0 <= j < i + 1 && now < old_entries[j].recorded_at + old_ttl implies exists|
                            k: int,
                        | 0 <= k < kept@.len() && kept@[k] == old_entries[j] by {
                        if j == i {
                            assert(kept@[m] == old_entries[j]);
                        } else {
                            let k = choose|k: int|
                                0 <= k < prev_kept.len() && prev_kept[k] == old_entries[j];
                            assert(kept@[k] == old_entries[j]);
                        }
                    }
                }
            } else {
                proof {
                    assert forall|j: int|
                        0 <= j < i + 1 && now < old_entries[j].recorded_at + old_ttl implies exists|
                            k: int,
                        | 0 <= k < kept@.len() && kept@[k] == old_entries[j] by {
                        if j < i {
                            let k = choose|k: int|
                                0 <= k < kept@.len() && kept@[k] == old_entries[j];
                        }
                    }
                }
            }
            i = i + 1;
        }
        self.entries = kept;
        proof {
            let n = old_entries.len() as int;
            assert forall|id: MessageId, t: u64|
                now <= t && old(self).seen_at(id, t) implies self.seen_at(id, t) by {
                let j = choose|j: int|
                    0 <= j < n && old_entries[j].id == id && t < old_entries[j].recorded_at
                        + old_ttl;
                assert(now < old_entries[j].recorded_at + old_ttl);
                let k = choose|k: int|
                    0 <= k < self.entries@.len() && self.entries@[k] == old_entries[j];
                assert(self.entries@[k].id == id && t < self.entries@[k].recorded_at + self.ttl);
            }
            assert forall|id: MessageId, t: u64| self.seen_at(id, t) implies old(self).seen_at(
                id,
                t,
            ) && old(self).seen_at(id, now) by {
                let k = choose|k: int|
                    0 <= k < self.entries@.len() && self.entries@[k].id == id && t
                        < self.entries@[k].recorded_at + self.ttl;
                let j = choose|j: int| 0 <= j < n && old_entries[j] == self.entries@[k];
                assert(old_entries[j].id == id && t < old_entries[j].recorded_at + old_ttl);
                assert(now < self.entries@[k].recorded_at + old_ttl);
                assert(now < old_entries[j].recorded_at + old_ttl);
            }
        }
    }
}

} // verus!
