//! Automated Persisted Queries (APQ).
//!
//! Clients send the SHA-256 hash of a query instead of its text. A known
//! hash resolves to the cached query; an unknown one is answered with
//! `PERSISTED_QUERY_NOT_FOUND`, after which the client sends hash and query
//! together and the server caches the query. The cache holds a bounded
//! number of queries and evicts the oldest when full.
use sha2::{Digest, Sha256};
use vstd::prelude::*;
use vstd::string::StringSliceAdditionalSpecFns;
use vstd::utf8::encode_utf8;

use crate::keyed_store::KeyedStore;

verus! {

// ---------------------------------------------------------------------------
// Hashing
// ---------------------------------------------------------------------------

/// The SHA-256 digest of `data`.
pub uninterp spec fn sha256(data: Seq<u8>) -> Seq<u8>;

/// Lower-case hexadecimal digit for a value below 16.
pub open spec fn hex_digit(v: int) -> char {
    if v < 10 {
        (v + 48) as char
    } else {
        (v + 87) as char
    }
}

/// Two lower-case hexadecimal digits per byte, high nibble first.
pub open spec fn hex_lower(data: Seq<u8>) -> Seq<char>
    decreases data.len(),
{
    if data.len() == 0 {
        Seq::empty()
    } else {
        hex_lower(data.drop_last()).push(hex_digit(data.last() as int / 16)).push(
            hex_digit(data.last() as int % 16),
        )
    }
}

/// The key under which a query is cached: the hex-encoded SHA-256 of its
/// UTF-8 bytes.
pub open spec fn apq_hash(query: Seq<char>) -> Seq<char> {
    hex_lower(sha256(encode_utf8(query)))
}

pub proof fn lemma_hex_len(data: Seq<u8>)
    ensures
        hex_lower(data).len() == 2 * data.len(),
    decreases data.len(),
{
    if data.len() > 0 {
        lemma_hex_len(data.drop_last());
    }
}

/// `Sha256::digest` from `sha2`: the SHA-256 digest of `data`, which is 32
/// bytes long (the output size of `Sha256`).
#[verifier::external_body]
fn sha256_digest(data: &[u8]) -> (r: Vec<u8>)
    ensures
        r@ == sha256(data@),
        r@.len() == 32,
{
    Sha256::digest(data).to_vec()
}

/// `hex::encode`: each byte as two lower-case hexadecimal digits.
#[verifier::external_body]
fn hex_encode(data: &[u8]) -> (r: String)
    ensures
        r@ == hex_lower(data@),
{
    hex::encode(data)
}

/// The APQ key of `query`.
pub fn query_hash(query: &str) -> (r: String)
    ensures
        r@ == apq_hash(query@),
        r@.len() == 64,
{
    let digest = sha256_digest(query.as_bytes());
    let r = hex_encode(digest.as_slice());
    proof {
        lemma_hex_len(digest@);
    }
    r
}

/// Compares two byte strings in time that depends only on their lengths.
pub fn constant_time_eq(a: &[u8], b: &[u8]) -> (r: bool)
    ensures
        r == (a@ == b@),
{
    if a.len() != b.len() {
        return false;
    }
    let mut diff: u8 = 0;
    let mut i: usize = 0;
    while i < a.len()
        invariant
            a@.len() == b@.len(),
            i <= a@.len(),
            (diff == 0) == (forall|j: int| 0 <= j < i ==> a@[j] == b@[j]),
        decreases a@.len() - i,
    {
        let x = a[i];
        let y = b[i];
        let d = diff;
        assert((d | (x ^ y)) == 0 <==> (d == 0 && x == y)) by (bit_vector);
        diff = diff | (x ^ y);
        i += 1;
    }
    proof {
        if diff == 0 {
            assert(a@ =~= b@);
        }
    }
    diff == 0
}

// ---------------------------------------------------------------------------
// Cache
// ---------------------------------------------------------------------------

/// A cached query and the logical time at which it was last used (stored or
/// looked up).
pub struct CachedQuery {
    pub query: String,
    pub last_used: u64,
}

/// Bounded cache of persisted queries keyed by their hash.
pub struct ApqCache {
    store: KeyedStore<CachedQuery>,
    max_entries: usize,
    clock: u64,
}

/// Key of an entry in `m` whose last use lies furthest back.
pub open spec fn is_least_recent(m: Map<Seq<char>, (Seq<char>, u64)>, k: Seq<char>) -> bool {
    m.contains_key(k) && forall|j: Seq<char>| #[trigger] m.contains_key(j) ==> m[k].1 <= m[j].1
}

/// `after` is the cache `before` (of the given capacity) once `query` has
/// been stored at logical time `now` under its hash: when the cache was
/// full, the least recently used entry made room first.
pub open spec fn stored_as(
    before: Map<Seq<char>, (Seq<char>, u64)>,
    capacity: usize,
    now: u64,
    query: Seq<char>,
    after: Map<Seq<char>, (Seq<char>, u64)>,
) -> bool {
    let full = before.len() >= capacity && before.len() > 0;
    &&& !full ==> after == before.insert(apq_hash(query), (query, now))
    &&& full ==> exists|k: Seq<char>| is_least_recent(before, k) && after == before.remove(k).insert(
        apq_hash(query),
        (query, now),
    )
}

/// The logical clock after one use; it stops at its maximum.
pub open spec fn next_tick(now: u64) -> u64 {
    if now == u64::MAX {
        u64::MAX
    } else {
        (now + 1) as u64
    }
}

impl ApqCache {
    /// Cached entries: hash to (query text, logical time of last use).
    pub closed spec fn entries(&self) -> Map<Seq<char>, (Seq<char>, u64)> {
        self.store.view().map_values(|c: CachedQuery| (c.query@, c.last_used))
    }

    /// Maximum number of entries before the least recently used is evicted.
    pub closed spec fn capacity(&self) -> usize {
        self.max_entries
    }

    /// The logical time the next use is stamped with.
    pub closed spec fn now(&self) -> u64 {
        self.clock
    }

    pub closed spec fn wf(&self) -> bool {
        &&& self.store.wf()
        &&& forall|k: Seq<char>| #[trigger] self.store.view().contains_key(k) ==> (self.store.view()[k].last_used < self.clock
            || self.clock == u64::MAX)
        &&& self.store.view().len() <= if self.max_entries == 0 { 1 } else { self.max_entries as int }
    }

    proof fn lemma_entries(&self)
        requires
            self.wf(),
        ensures
            self.entries().dom() == self.store.view().dom(),
            self.entries().dom().finite(),
            self.entries().len() == self.store.view().len(),
            forall|k: Seq<char>| #[trigger] self.entries().contains_key(k) ==> (self.entries()[k].1 < self.now()
                || self.now() == u64::MAX),
            self.entries().len() <= if self.capacity() == 0 { 1 } else { self.capacity() as int },
    {
        self.store.lemma_slots();
        assert(self.entries().dom() =~= self.store.view().dom());
    }

    /// Every entry was last used before the present logical time (unless
    /// the clock has reached its maximum), and the cache is within bounds.
    pub proof fn lemma_uses_before_now(&self)
        requires
            self.wf(),
        ensures
            self.entries().dom().finite(),
            forall|k: Seq<char>| #[trigger] self.entries().contains_key(k) ==> (self.entries()[k].1 < self.now()
                || self.now() == u64::MAX),
            self.entries().len() <= if self.capacity() == 0 { 1 } else { self.capacity() as int },
    {
        self.lemma_entries();
    }

    pub fn new(max_entries: usize) -> (r: Self)
        ensures
            r.wf(),
            r.entries() == Map::<Seq<char>, (Seq<char>, u64)>::empty(),
            r.capacity() == max_entries,
            r.now() == 0,
    {
        let r = Self { store: KeyedStore::new(), max_entries, clock: 0 };
        assert(r.entries() =~= Map::<Seq<char>, (Seq<char>, u64)>::empty());
        r
    }

    /// Slot of the least recently used entry.
    fn least_recent_slot(&self) -> (r: usize)
        requires
            self.wf(),
            self.store.key_order().len() > 0,
        ensures
            r < self.store.key_order().len(),
            is_least_recent(self.entries(), self.store.key_order()[r as int]),
    {
        proof {
            self.store.lemma_slots();
        }
        let n = self.store.len();
        let mut best: usize = 0;
        let mut i: usize = 1;
        while i < n
            invariant
                self.wf(),
                n == self.store.key_order().len(),
                best < n,
                1 <= i <= n,
                forall|j: int| 0 <= j < i ==> self.store.value_order()[best as int].last_used
                    <= #[trigger] self.store.value_order()[j].last_used,
            decreases n - i,
        {
            let (_, cand) = self.store.slot(i);
            let (_, cur) = self.store.slot(best);
            if cand.last_used < cur.last_used {
                best = i;
            }
            i += 1;
        }
        proof {
            self.store.lemma_slots();
            let ko = self.store.key_order();
            let k = ko[best as int];
            assert forall|j: Seq<char>| #[trigger] self.entries().contains_key(j) implies self.entries()[k].1
                <= self.entries()[j].1 by {
                assert(self.store.view().contains_key(j));
                assert(ko.contains(j));
                let s = choose|s: int| 0 <= s < ko.len() && ko[s] == j;
                assert(self.store.value_order()[best as int].last_used <= self.store.value_order()[s].last_used);
            }
        }
        best
    }

    /// Stores `query` under its hash and returns the hash. When the cache
    /// already holds `capacity` entries, an entry with the oldest timestamp
    /// is evicted first. The stored entry is the newest.
    pub fn store(&mut self, query: &str) -> (r: String)
        requires
            old(self).wf(),
        ensures
            final(self).wf(),
            r@ == apq_hash(query@),
            r@.len() == 64,
            final(self).capacity() == old(self).capacity(),
            stored_as(old(self).entries(), old(self).capacity(), old(self).now(), query@, final(self).entries()),
            final(self).now() == next_tick(old(self).now()),
            final(self).entries().len() <= if final(self).capacity() == 0 {
                1
            } else {
                final(self).capacity() as int
            },
            forall|k: Seq<char>| #[trigger] final(self).entries().contains_key(k) ==> final(self).entries()[k].1
                <= final(self).entries()[r@].1,
    {
        proof {
            self.lemma_entries();
            self.store.lemma_slots();
        }
        let hash = query_hash(query);
        let ghost before = self.entries();
        let ghost mut victim: Seq<char> = Seq::empty();
        if self.store.len() >= self.max_entries && self.store.len() > 0 {
            let best = self.least_recent_slot();
            let (key, _) = self.store.slot(best);
            let key = key.clone();
            proof {
                victim = key@;
            }
            self.store.remove(key.as_str());
            assert(self.entries() =~= before.remove(victim));
        }
        let ghost mid = self.entries();
        let stamp = self.clock;
        self.store.insert(hash.clone(), CachedQuery { query: query.to_owned(), last_used: stamp });
        self.clock = self.clock.saturating_add(1);
        proof {
            assert(self.entries() =~= mid.insert(hash@, (query@, stamp)));
            self.store.lemma_slots();
            assert(self.store.view().dom() =~= self.entries().dom());
            if !(before.len() >= old(self).capacity() && before.len() > 0) {
                assert(mid =~= before);
            }
        }
        hash
    }

    /// The query cached under `hash`. A hit counts as a use: the entry
    /// becomes the most recently used one.
    pub fn lookup(&mut self, hash: &str) -> (r: Option<String>)
        requires
            old(self).wf(),
        ensures
            final(self).wf(),
            final(self).capacity() == old(self).capacity(),
            match r {
                Some(q) => old(self).entries().contains_key(hash@) && q@ == old(self).entries()[hash@].0
                    && final(self).entries() == old(self).entries().insert(hash@, (q@, old(self).now()))
                    && final(self).now() == next_tick(old(self).now()),
                None => !old(self).entries().contains_key(hash@) && final(self).entries() == old(
                    self,
                ).entries() && final(self).now() == old(self).now(),
            },
    {
        let found = match self.store.get(hash) {
            Some(entry) => Some(entry.query.clone()),
            None => None,
        };
        match found {
            Some(q) => {
                let ghost before = self.entries();
                let stamp = self.clock;
                self.store.insert(hash.to_owned(), CachedQuery { query: q.clone(), last_used: stamp });
                self.clock = self.clock.saturating_add(1);
                proof {
                    assert(self.entries() =~= before.insert(hash@, (q@, stamp)));
                    assert(self.store.view().dom() =~= old(self).store.view().dom());
                }
                Some(q)
            },
            None => None,
        }
    }

    /// Second request of the APQ flow: `hash` and `query` together. When the
    /// hash is the query's, the query is stored (as `store` does), then
    /// looked up (a use) and returned; otherwise nothing changes and `None`
    /// is returned.
    pub fn lookup_and_store(&mut self, hash: &str, query: &str) -> (r: Option<String>)
        requires
            old(self).wf(),
        ensures
            final(self).wf(),
            final(self).capacity() == old(self).capacity(),
            hash@ != apq_hash(query@) ==> r is None && final(self).entries() == old(self).entries()
                && final(self).now() == old(self).now(),
            hash@ == apq_hash(query@) ==> (r matches Some(q) && q@ == query@),
            hash@ == apq_hash(query@) ==> exists|mid: Map<Seq<char>, (Seq<char>, u64)>|
                stored_as(old(self).entries(), old(self).capacity(), old(self).now(), query@, mid)
                    && #[trigger] final(self).entries() == mid.insert(
                    hash@,
                    (query@, next_tick(old(self).now())),
                ),
            hash@ == apq_hash(query@) ==> final(self).now() == next_tick(next_tick(old(self).now())),
    {
        let expected = query_hash(query);
        proof {
            vstd::utf8::encode_utf8_decode_utf8(expected@);
            vstd::utf8::encode_utf8_decode_utf8(hash@);
        }
        if !constant_time_eq(expected.as_str().as_bytes(), hash.as_bytes()) {
            return None;
        }
        let _ = self.store(query);
        let ghost mid = self.entries();
        proof {
            lemma_stored_query_found(old(self).entries(), old(self).capacity(), old(self).now(), query@, mid);
        }
        let r = self.lookup(hash);
        proof {
            assert(final(self).entries() == mid.insert(hash@, (query@, next_tick(old(self).now()))));
        }
        r
    }

    /// Number of cached entries.
    pub fn len(&self) -> (r: usize)
        requires
            self.wf(),
        ensures
            r == self.entries().len(),
    {
        proof {
            self.lemma_entries();
        }
        self.store.len()
    }

    pub fn is_empty(&self) -> (r: bool)
        requires
            self.wf(),
        ensures
            r == (self.entries().len() == 0),
    {
        proof {
            self.lemma_entries();
        }
        self.store.len() == 0
    }
}

// ---------------------------------------------------------------------------
// Laws
// ---------------------------------------------------------------------------

/// A stored query is found again under its hash, with the time it was
/// stored: a later request that sends only the hash gets the query back.
pub proof fn lemma_stored_query_found(
    before: Map<Seq<char>, (Seq<char>, u64)>,
    capacity: usize,
    now: u64,
    query: Seq<char>,
    after: Map<Seq<char>, (Seq<char>, u64)>,
)
    requires
        stored_as(before, capacity, now, query, after),
    ensures
        after.contains_key(apq_hash(query)),
        after[apq_hash(query)] == (query, now),
{
    let full = before.len() >= capacity && before.len() > 0;
    if full {
        let k = choose|k: Seq<char>| is_least_recent(before, k) && after == before.remove(k).insert(
            apq_hash(query),
            (query, now),
        );
    }
}

/// A looked-up entry is the most recently used: when the cache held at
/// least two entries, all used before the lookup, the next store evicts
/// some other entry and the looked-up one stays.
pub proof fn lemma_used_entry_survives(
    before: Map<Seq<char>, (Seq<char>, u64)>,
    now: u64,
    hash: Seq<char>,
    capacity: usize,
    query: Seq<char>,
    after: Map<Seq<char>, (Seq<char>, u64)>,
)
    requires
        before.dom().finite(),
        before.len() >= 2,
        forall|k: Seq<char>| #[trigger] before.contains_key(k) ==> before[k].1 < now,
        before.contains_key(hash),
        stored_as(before.insert(hash, (before[hash].0, now)), capacity, next_tick(now), query, after),
    ensures
        after.contains_key(hash),
{
    let used = before.insert(hash, (before[hash].0, now));
    let rest = before.dom().remove(hash);
    assert(rest.len() >= 1);
    let j = rest.choose();
    assert(rest.contains(j));
    assert(used.dom() =~= before.dom());
    let full = used.len() >= capacity && used.len() > 0;
    if full {
        let k = choose|k: Seq<char>| is_least_recent(used, k) && after == used.remove(k).insert(
            apq_hash(query),
            (query, next_tick(now)),
        );
        assert(used.contains_key(j));
        assert(used[k].1 <= used[j].1);
        assert(k != hash);
    }
}

/// Storing never lets the cache grow past its capacity (or past one entry
/// for a capacity of zero).
pub proof fn lemma_store_bounded(
    before: Map<Seq<char>, (Seq<char>, u64)>,
    capacity: usize,
    now: u64,
    query: Seq<char>,
    after: Map<Seq<char>, (Seq<char>, u64)>,
)
    requires
        before.dom().finite(),
        before.len() <= if capacity == 0 { 1 } else { capacity as int },
        stored_as(before, capacity, now, query, after),
    ensures
        after.dom().finite(),
        after.len() <= if capacity == 0 { 1 } else { capacity as int },
{
    let full = before.len() >= capacity && before.len() > 0;
    if full {
        let k = choose|k: Seq<char>| is_least_recent(before, k) && after == before.remove(k).insert(
            apq_hash(query),
            (query, now),
        );
        assert(before.remove(k).len() == before.len() - 1);
    }
}

/// A cache that is not full loses no entry when a query is stored; a full
/// one loses at most the one oldest entry it evicts, and every other entry
/// keeps its query and time unless the new query's hash replaces it.
pub proof fn lemma_store_keeps_others(
    before: Map<Seq<char>, (Seq<char>, u64)>,
    capacity: usize,
    now: u64,
    query: Seq<char>,
    after: Map<Seq<char>, (Seq<char>, u64)>,
    other: Seq<char>,
)
    requires
        stored_as(before, capacity, now, query, after),
        before.contains_key(other),
        other != apq_hash(query),
    ensures
        !(before.len() >= capacity && before.len() > 0) ==> after.contains_key(other) && after[other]
            == before[other],
        after.contains_key(other) ==> after[other] == before[other],
        !after.contains_key(other) ==> is_least_recent(before, other),
{
    let full = before.len() >= capacity && before.len() > 0;
    if full {
        let k = choose|k: Seq<char>| is_least_recent(before, k) && after == before.remove(k).insert(
            apq_hash(query),
            (query, now),
        );
    }
}

// ---------------------------------------------------------------------------
// Error response
// ---------------------------------------------------------------------------

pub struct ApqErrorExtensions {
    pub code: String,
}

pub struct ApqError {
    pub message: String,
    pub extensions: ApqErrorExtensions,
}

/// Body returned when a hash is not cached.
pub struct ApqErrorResponse {
    pub errors: Vec<ApqError>,
}

impl ApqErrorResponse {
    pub fn not_found() -> (r: Self)
        ensures
            r.errors@.len() == 1,
            r.errors@[0].message@ == "PersistedQueryNotFound"@,
            r.errors@[0].extensions.code@ == "PERSISTED_QUERY_NOT_FOUND"@,
    {
        let mut errors = Vec::new();
        errors.push(
            ApqError {
                message: "PersistedQueryNotFound".to_owned(),
                extensions: ApqErrorExtensions { code: "PERSISTED_QUERY_NOT_FOUND".to_owned() },
            },
        );
        Self { errors }
    }
}

} // verus!
