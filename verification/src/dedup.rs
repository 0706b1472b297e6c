//! Content-based frame deduplication. A payload's fingerprint is a fast,
//! non-cryptographic content hash (FNV-1a, 64 bit); the cache maps
//! (room id, fingerprint) to the last-seen timestamp and treats entries
//! older than the TTL as absent (lazy expiry), refreshing the timestamp on
//! every lookup. Only the persistence decision is gated by this cache;
//! broadcast never is.

use crate::assoc::{
    has_key, lemma_key_at, lemma_push_new, lemma_update_val, uniq_keys, value_of,
};
use vstd::prelude::*;
use vstd::std_specs::vec::vec_index_mut;

verus! {

/// FNV-1a 64-bit offset basis.
pub const FNV_OFFSET_BASIS: u64 = 0xcbf29ce484222325;

/// FNV-1a 64-bit prime.
pub const FNV_PRIME: u64 = 0x100000001b3;

/// How long a dedup entry stays fresh, in milliseconds (one hour).
pub const DEDUP_TTL_MS: i64 = 3600000;

/// One FNV-1a step: fold one byte into the running hash.
pub open spec fn fnv1a_step(h: u64, b: u8) -> u64 {
    vstd::wrapping::u64_specs::wrapping_mul(h ^ (b as u64), FNV_PRIME)
}

/// The hash of the first `n` bytes of `data`.
pub open spec fn fnv1a_prefix(data: Seq<u8>, n: int) -> u64
    decreases n,
{
    if n <= 0 {
        FNV_OFFSET_BASIS
    } else {
        fnv1a_step(fnv1a_prefix(data, n - 1), data[n - 1])
    }
}

/// The FNV-1a 64-bit hash of a byte sequence.
pub open spec fn fnv1a(data: Seq<u8>) -> u64 {
    fnv1a_prefix(data, data.len() as int)
}

/// The content fingerprint used for frame deduplication.
pub fn calculate_frame_hash(data: &[u8]) -> (r: u64)
    ensures
        r == fnv1a(data@),
{
    let n = data.len();
    let mut h: u64 = FNV_OFFSET_BASIS;
    let mut i: usize = 0;
    while i < n
        invariant
            n == data@.len(),
            i <= n,
            h == fnv1a_prefix(data@, i as int),
        decreases n - i,
    {
        h = (h ^ (data[i] as u64)).wrapping_mul(FNV_PRIME);
        i = i + 1;
    }
    h
}

/// One cache entry: the room, the payload fingerprint, and when such a
/// payload was last submitted there.
pub struct DedupEntry {
    pub room_id: String,
    pub fingerprint: u64,
    pub last_seen: i64,
}

/// The association sequence a dedup table denotes: (room id, fingerprint)
/// to last-seen timestamp.
pub open spec fn dedup_entries(es: Seq<DedupEntry>) -> Seq<((Seq<char>, u64), i64)> {
    es.map_values(|e: DedupEntry| ((e.room_id@, e.fingerprint), e.last_seen))
}

/// The deduplication cache of the whole engine; rooms do not interfere,
/// because the room id is part of the key.
pub struct DedupCache {
    pub ttl_ms: i64,
    pub entries: Vec<DedupEntry>,
}

impl DedupCache {
    /// Well-formed: distinct keys, a positive TTL, timestamps
    /// non-negative.
    pub open spec fn wf(self) -> bool {
        &&& uniq_keys(dedup_entries(self.entries@))
        &&& self.ttl_ms >= 1
        &&& forall|i: int| 0 <= i < self.entries@.len() ==> (#[trigger] self.entries@[i]).last_seen >= 0
    }

    /// Whether the cache holds an entry under this key (fresh or stale).
    pub open spec fn seen(self, rid: Seq<char>, fp: u64) -> bool {
        has_key(dedup_entries(self.entries@), (rid, fp))
    }

    /// The timestamp stored under this key.
    pub open spec fn last_seen_of(self, rid: Seq<char>, fp: u64) -> i64 {
        value_of(dedup_entries(self.entries@), (rid, fp))
    }

    /// What a lookup at time `ts` reports: a duplicate is an entry whose
    /// last submission lies within the TTL window; a stale entry counts
    /// as absent.
    pub open spec fn is_dup_spec(self, rid: Seq<char>, fp: u64, ts: i64) -> bool {
        self.seen(rid, fp) && ts - self.last_seen_of(rid, fp) < self.ttl_ms
    }

    /// How a lookup for `(rid, fp)` at time `ts` changes the cache,
    /// whatever it reports: that one entry now carries `ts`, and no other
    /// entry moves.
    pub open spec fn touched(pre: Self, post: Self, rid: Seq<char>, fp: u64, ts: i64) -> bool {
        &&& post.ttl_ms == pre.ttl_ms
        &&& post.seen(rid, fp)
        &&& post.last_seen_of(rid, fp) == ts
        &&& forall|r2: Seq<char>, f2: u64|
            (r2, f2) != (rid, fp) ==> #[trigger] post.seen(r2, f2) == pre.seen(r2, f2)
        &&& forall|r2: Seq<char>, f2: u64|
            (r2, f2) != (rid, fp) && pre.seen(r2, f2) ==> #[trigger] post.last_seen_of(r2, f2)
                == pre.last_seen_of(r2, f2)
    }

    /// An empty cache with the given TTL.
    pub fn new(ttl_ms: i64) -> (r: Self)
        requires
            ttl_ms >= 1,
        ensures
            r.wf(),
            r.ttl_ms == ttl_ms,
            r.entries@.len() == 0,
            forall|rid: Seq<char>, fp: u64| !r.seen(rid, fp),
    {
        let r = DedupCache { ttl_ms, entries: Vec::new() };
        proof {
            assert(dedup_entries(r.entries@).len() == 0);
        }
        r
    }

    /// An empty cache with the engine's reference TTL of one hour.
    pub fn with_default_ttl() -> (r: Self)
        ensures
            r.wf(),
            r.ttl_ms == DEDUP_TTL_MS,
            r.entries@.len() == 0,
            forall|rid: Seq<char>, fp: u64| !r.seen(rid, fp),
    {
        Self::new(DEDUP_TTL_MS)
    }

    /// The position of the entry for this room and fingerprint.
    fn find_entry(&self, room_id: &String, fp: u64) -> (r: Option<usize>)
        ensures
            match r {
                Some(i) => i < self.entries@.len() && self.entries@[i as int].room_id@ == room_id@
                    && self.entries@[i as int].fingerprint == fp,
                None => !self.seen(room_id@, fp),
            },
    {
        let n = self.entries.len();
        let mut i: usize = 0;
        while i < n
            invariant
                n == self.entries@.len(),
                i <= n,
                forall|j: int|
                    0 <= j < i ==> !((#[trigger] self.entries@[j]).room_id@ == room_id@
                        && self.entries@[j].fingerprint == fp),
            decreases n - i,
        {
            if self.entries[i].fingerprint == fp && self.entries[i].room_id == *room_id {
                return Some(i);
            }
            i = i + 1;
        }
        proof {
            let es = dedup_entries(self.entries@);
            assert forall|j: int| 0 <= j < es.len() implies (#[trigger] es[j]).0 != (room_id@, fp) by {
                assert(es[j] == ((self.entries@[j].room_id@, self.entries@[j].fingerprint),
                self.entries@[j].last_seen));
            }
        }
        None
    }

    /// Reports whether this payload counts as a duplicate for the room at
    /// `timestamp`, and in every case refreshes the entry's last-seen
    /// timestamp to `timestamp` (inserting the entry when absent).
    pub fn is_duplicate(&mut self, room_id: &String, payload: &Vec<u8>, timestamp: i64) -> (r: bool)
        requires
            old(self).wf(),
            timestamp >= 0,
        ensures
            final(self).wf(),
            r == old(self).is_dup_spec(room_id@, fnv1a(payload@), timestamp),
            Self::touched(*old(self), *final(self), room_id@, fnv1a(payload@), timestamp),
    {
        let fp = calculate_frame_hash(payload.as_slice());
        match self.find_entry(room_id, fp) {
            Some(i) => {
                proof {
                    lemma_key_at(dedup_entries(self.entries@), (room_id@, fp), i as int);
                    assert(dedup_entries(self.entries@)[i as int] == ((
                        self.entries@[i as int].room_id@,
                        self.entries@[i as int].fingerprint,
                    ), self.entries@[i as int].last_seen));
                }
                let ghost mid = *self;
                let ghost pre = dedup_entries(self.entries@);
                let e = vec_index_mut(&mut self.entries, i);
                let dup = timestamp - e.last_seen < self.ttl_ms;
                e.last_seen = timestamp;
                proof {
                    assert(pre[i as int] == ((mid.entries@[i as int].room_id@, mid.entries@[i as int].fingerprint), mid.entries@[i as int].last_seen));
                    let ne = self.entries@[i as int];
                    let upd = pre.update(i as int, (pre[i as int].0, ne.last_seen));
                    assert(dedup_entries(self.entries@) =~= upd);
                    lemma_update_val(pre, i as int, ne.last_seen);
                    lemma_key_at(dedup_entries(self.entries@), (room_id@, fp), i as int);
                    assert(dedup_entries(self.entries@)[i as int] == ((ne.room_id@, ne.fingerprint), ne.last_seen));
                }
                dup
            },
            None => {
                let entry = DedupEntry {
                    room_id: room_id.clone(),
                    fingerprint: fp,
                    last_seen: timestamp,
                };
                let ghost gentry = entry;
                let ghost pre = dedup_entries(self.entries@);
                self.entries.push(entry);
                proof {
                    assert(dedup_entries(self.entries@) =~= pre.push((
                        (gentry.room_id@, gentry.fingerprint),
                        gentry.last_seen,
                    )));
                    lemma_push_new(pre, (gentry.room_id@, gentry.fingerprint), gentry.last_seen);
                }
                false
            },
        }
    }
}

/// Dedup idempotence: once a payload has been submitted for a room (so an
/// entry with timestamp `t1` is present), a second submission of the same
/// bytes at time `t2` reports duplicate exactly when it falls within the
/// TTL window, and reports fresh again once the window has passed.
pub proof fn lemma_dedup_idempotence(
    cache: DedupCache,
    rid: Seq<char>,
    payload: Seq<u8>,
    t1: i64,
    t2: i64,
)
    requires
        cache.wf(),
        cache.seen(rid, fnv1a(payload)),
        cache.last_seen_of(rid, fnv1a(payload)) == t1,
    ensures
        t2 - t1 < cache.ttl_ms ==> cache.is_dup_spec(rid, fnv1a(payload), t2),
        t2 - t1 >= cache.ttl_ms ==> !cache.is_dup_spec(rid, fnv1a(payload), t2),
{
}

} // verus!
