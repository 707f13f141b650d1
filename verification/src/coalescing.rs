//! Single-flight request coalescing: identical GraphQL requests that arrive
//! while one of them is running share its result instead of reaching the
//! backend again.
//!
//! A request's identity is its key: the hash of the query with white space
//! collapsed, of the operation name and of the JSON text of the variables.
//! The coalescer keeps the keys in flight and decides, for each arriving
//! request, whether it bypasses coalescing, leads, or follows a leader.
use std::hash::Hasher;
use std::collections::hash_map::DefaultHasher;
use dashmap::DashMap;
use serde_json::Value;
use std::time::Duration;
use vstd::prelude::*;
use vstd::std_specs::hash::DefaultHasherAdditionalSpecFns;
use vstd::std_specs::iter::IteratorSpec;
use vstd::utf8::encode_utf8;

use crate::text::opt_view;

verus! {

// ---------------------------------------------------------------------------
// Query normalisation
// ---------------------------------------------------------------------------

/// Unicode `White_Space`, the property that `char::is_whitespace` tests.
pub open spec fn is_white_space(c: char) -> bool {
    let u = c as u32;
    (9 <= u <= 13) || u == 32 || u == 0x85 || u == 0xA0 || u == 0x1680 || (0x2000 <= u <= 0x200A)
        || u == 0x2028 || u == 0x2029 || u == 0x202F || u == 0x205F || u == 0x3000
}

/// The words of `s` (maximal runs of non-white-space characters), each
/// separated from the next by a single space.
pub open spec fn collapse_white_space(s: Seq<char>) -> Seq<char>
    decreases s.len(),
{
    if s.len() == 0 {
        s
    } else {
        let prior = collapse_white_space(s.drop_last());
        let c = s.last();
        if is_white_space(c) {
            prior
        } else if s.len() >= 2 && is_white_space(s[s.len() - 2]) && prior.len() > 0 {
            prior.push(' ').push(c)
        } else {
            prior.push(c)
        }
    }
}

fn white_space(c: char) -> (r: bool)
    ensures
        r == is_white_space(c),
{
    let u = c as u32;
    (9 <= u && u <= 13) || u == 32 || u == 0x85 || u == 0xA0 || u == 0x1680 || (0x2000 <= u && u
        <= 0x200A) || u == 0x2028 || u == 0x2029 || u == 0x202F || u == 0x205F || u == 0x3000
}

/// `String`'s `FromIterator<char>` from std: the string of the given
/// characters in order.
#[verifier::external_body]
fn string_of_chars(chars: &Vec<char>) -> (r: String)
    ensures
        r@ == chars@,
{
    chars.iter().collect()
}

/// The query with white space collapsed: its words joined by single spaces.
pub fn normalize_whitespace(q: &str) -> (r: String)
    ensures
        r@ == collapse_white_space(q@),
{
    let mut it = q.chars();
    let ghost all = q@;
    let mut out: Vec<char> = Vec::new();
    let mut prev_ws = false;
    let ghost mut done: Seq<char> = Seq::empty();
    loop
        invariant
            all == q@,
            done + it.remaining() == all,
            out@ == collapse_white_space(done),
            prev_ws == (done.len() > 0 && is_white_space(done.last())),
            it.obeys_prophetic_iter_laws(),
            it.decrease() is Some,
        ensures
            out@ == collapse_white_space(all),
        decreases it.decrease()->0,
    {
        match it.next() {
            Some(c) => {
                proof {
                    assert(done.push(c) + it.remaining() =~= all);
                    let d2 = done.push(c);
                    assert(d2.drop_last() =~= done);
                }
                let ws = white_space(c);
                if !ws {
                    if prev_ws && out.len() > 0 {
                        out.push(' ');
                    }
                    out.push(c);
                }
                proof {
                    done = done.push(c);
                }
                prev_ws = ws;
            },
            None => {
                proof {
                    assert(done =~= all);
                }
                break;
            },
        }
    }
    string_of_chars(&out)
}

// ---------------------------------------------------------------------------
// Request keys
// ---------------------------------------------------------------------------

/// `serde_json::Value`, a JSON document; opaque to Verus.
#[verifier::external_type_specification]
#[verifier::external_body]
pub struct ExJsonValue(Value);

/// The compact JSON text that `serde_json::to_string` writes for a value, or
/// `None` where it reports an error.
pub uninterp spec fn json_text(v: Value) -> Option<Seq<char>>;

/// `serde_json::to_string` on a JSON value. Its result is named
/// `json_text`; object keys come out in the map's own (sorted) order.
#[verifier::external_body]
fn json_to_string(v: &Value) -> (r: Option<String>)
    ensures
        opt_view(r) == json_text(*v),
{
    serde_json::to_string(v).ok()
}

/// What hashing a string with `Hash for str` feeds a hasher: its UTF-8
/// bytes, then the byte 0xFF that ends every string.
pub open spec fn str_writes(s: Seq<char>) -> Seq<Seq<u8>> {
    seq![encode_utf8(s), seq![0xFFu8]]
}

pub open spec fn optional_writes(s: Option<Seq<char>>) -> Seq<Seq<u8>> {
    match s {
        Some(s) => str_writes(s),
        None => Seq::empty(),
    }
}

/// The hasher input of a request: the normalised query, the operation
/// name and the JSON text of the variables, each where present.
pub open spec fn key_writes(
    query: Option<Seq<char>>,
    operation_name: Option<Seq<char>>,
    variables_json: Option<Seq<char>>,
) -> Seq<Seq<u8>> {
    optional_writes(
        match query {
            Some(q) => Some(collapse_white_space(q)),
            None => None,
        },
    ) + optional_writes(operation_name) + optional_writes(variables_json)
}

/// The key of a request, computed by std's `DefaultHasher` over
/// `key_writes`.
pub open spec fn request_key(
    query: Option<Seq<char>>,
    operation_name: Option<Seq<char>>,
    variables_json: Option<Seq<char>>,
) -> u64 {
    DefaultHasher::spec_finish(key_writes(query, operation_name, variables_json))
}

pub open spec fn opt_str_view(o: Option<&str>) -> Option<Seq<char>> {
    match o {
        Some(s) => Some(s@),
        None => None,
    }
}

pub open spec fn variables_text(v: Option<&Value>) -> Option<Seq<char>> {
    match v {
        Some(v) => json_text(*v),
        None => None,
    }
}

fn hash_str(hasher: &mut DefaultHasher, s: &str)
    ensures
        final(hasher)@ == old(hasher)@ + str_writes(s@),
{
    let bytes = s.as_bytes();
    assert(bytes@ == encode_utf8(s@));
    hasher.write(bytes);
    let end: Vec<u8> = vec![0xFFu8];
    assert(end@ =~= seq![0xFFu8]);
    hasher.write(end.as_slice());
    assert(hasher@ =~= old(hasher)@ + str_writes(s@));
}

impl Coalescer {
    /// The key of a GraphQL request: the hash of its query with white space
    /// collapsed, its operation name and the JSON text of its variables.
    pub fn make_key(query: Option<&str>, operation_name: Option<&str>, variables: Option<&Value>) -> (r: u64)
        ensures
            r == request_key(opt_str_view(query), opt_str_view(operation_name), variables_text(variables)),
    {
        let mut hasher = DefaultHasher::new();
        if let Some(q) = query {
            let normalized = normalize_whitespace(q);
            hash_str(&mut hasher, normalized.as_str());
        }
        if let Some(name) = operation_name {
            hash_str(&mut hasher, name);
        }
        if let Some(vars) = variables {
            if let Some(canonical) = json_to_string(vars) {
                hash_str(&mut hasher, canonical.as_str());
            }
        }
        proof {
            let ghost w = key_writes(opt_str_view(query), opt_str_view(operation_name), variables_text(variables));
            assert(hasher@ =~= w);
        }
        hasher.finish()
    }
}

// ---------------------------------------------------------------------------
// Keys in flight
// ---------------------------------------------------------------------------

/// The keys held by a set of in-flight requests.
pub uninterp spec fn flight_keys(m: DashMap<u64, ()>) -> Set<u64>;

/// `DashMap::new`: an empty map.
#[verifier::external_body]
fn flights_new() -> (r: DashMap<u64, ()>)
    ensures
        flight_keys(r) == Set::<u64>::empty(),
{
    DashMap::new()
}

/// `DashMap::contains_key`: whether `key` is held.
#[verifier::external_body]
fn flights_contains(m: &DashMap<u64, ()>, key: u64) -> (r: bool)
    ensures
        r == flight_keys(*m).contains(key),
{
    m.contains_key(&key)
}

/// `DashMap::insert`: afterwards `key` is held as well.
#[verifier::external_body]
fn flights_insert(m: &mut DashMap<u64, ()>, key: u64)
    ensures
        flight_keys(*final(m)) == flight_keys(*old(m)).insert(key),
{
    m.insert(key, ());
}

/// `DashMap::remove`: afterwards `key` is no longer held.
#[verifier::external_body]
fn flights_remove(m: &mut DashMap<u64, ()>, key: u64)
    ensures
        flight_keys(*final(m)) == flight_keys(*old(m)).remove(key),
{
    m.remove(&key);
}

/// `DashMap::is_empty`: whether no key is held.
#[verifier::external_body]
fn flights_is_empty(m: &DashMap<u64, ()>) -> (r: bool)
    ensures
        r == (flight_keys(*m) == Set::<u64>::empty()),
{
    m.is_empty()
}

// ---------------------------------------------------------------------------
// Decisions
// ---------------------------------------------------------------------------

#[derive(Debug)]
pub enum CoalescingError {
    /// A request took longer than the coalescer's timeout.
    Timeout(Duration),
    Internal(String),
}

impl Clone for CoalescingError {
    fn clone(&self) -> (r: Self)
        ensures
            r == *self,
    {
        match self {
            CoalescingError::Timeout(d) => CoalescingError::Timeout(*d),
            CoalescingError::Internal(m) => CoalescingError::Internal(m.clone()),
        }
    }
}

/// What an arriving request does.
#[derive(PartialEq, Eq, Structural)]
pub enum Admission {
    /// Coalescing is off: run the request directly.
    Bypass,
    /// No identical request is in flight: run it and share the result.
    Lead,
    /// An identical request is in flight: wait for its result.
    Follow,
}

/// How a follower's wait for the leader's result ended.
pub enum WaitOutcome<T> {
    /// The leader's result arrived.
    Received(Result<T, CoalescingError>),
    /// The follower fell behind the broadcast and missed the result.
    Lagged,
    /// The leader went away without sending.
    Closed,
    /// The timeout passed first; the follower then makes its own call.
    Elapsed,
}

/// What a follower does once its wait has ended.
pub enum FollowUp<T> {
    /// Return this result.
    Finish(Result<T, CoalescingError>),
    /// Run the request itself.
    RunItself,
}

/// What a request with `key` does, given the keys in flight.
pub open spec fn admission_for(enabled: bool, keys: Set<u64>, key: u64) -> Admission {
    if !enabled {
        Admission::Bypass
    } else if keys.contains(key) {
        Admission::Follow
    } else {
        Admission::Lead
    }
}

/// The keys in flight once a request with `key` has been admitted.
pub open spec fn keys_after_admission(enabled: bool, keys: Set<u64>, key: u64) -> Set<u64> {
    if admission_for(enabled, keys, key) == Admission::Lead {
        keys.insert(key)
    } else {
        keys
    }
}

/// The message of the error a follower gets when the leader went away.
pub open spec fn closed_channel_message() -> Seq<char> {
    "broadcast channel closed"@
}

/// Single-flight coalescer: whether coalescing is on, how long a follower
/// waits, and the keys of the requests in flight.
pub struct Coalescer {
    in_flight: DashMap<u64, ()>,
    enabled: bool,
    timeout: Duration,
}

impl Coalescer {
    /// The keys of the requests in flight.
    pub closed spec fn keys(&self) -> Set<u64> {
        flight_keys(self.in_flight)
    }

    pub closed spec fn is_enabled(&self) -> bool {
        self.enabled
    }

    /// How long a follower waits for its leader before running itself.
    pub closed spec fn wait_limit(&self) -> Duration {
        self.timeout
    }

    pub fn new(enabled: bool, timeout: Duration) -> (r: Self)
        ensures
            r.keys() == Set::<u64>::empty(),
            r.is_enabled() == enabled,
            r.wait_limit() == timeout,
    {
        Coalescer { in_flight: flights_new(), enabled, timeout }
    }

    /// A request arrives: bypass where coalescing is off, follow where an
    /// identical request is in flight, and otherwise lead, recording the
    /// key as in flight.
    pub fn arrive(&mut self, key: u64) -> (r: Admission)
        ensures
            r == admission_for(old(self).is_enabled(), old(self).keys(), key),
            final(self).keys() == keys_after_admission(old(self).is_enabled(), old(self).keys(), key),
            final(self).is_enabled() == old(self).is_enabled(),
            final(self).wait_limit() == old(self).wait_limit(),
    {
        if !self.enabled {
            return Admission::Bypass;
        }
        if flights_contains(&self.in_flight, key) {
            Admission::Follow
        } else {
            flights_insert(&mut self.in_flight, key);
            Admission::Lead
        }
    }

    /// The leader of `key` has broadcast its result: the key leaves the set
    /// in flight.
    pub fn complete(&mut self, key: u64)
        ensures
            final(self).keys() == old(self).keys().remove(key),
            final(self).is_enabled() == old(self).is_enabled(),
            final(self).wait_limit() == old(self).wait_limit(),
    {
        flights_remove(&mut self.in_flight, key);
    }

    /// What a follower does once its wait has ended: return the leader's
    /// result; run the request itself when it fell behind the broadcast or
    /// its wait timed out; fail when the leader went away without a result.
    pub fn follow_up<T>(&self, outcome: WaitOutcome<T>) -> (r: FollowUp<T>)
        ensures
            match outcome {
                WaitOutcome::Received(res) => r == FollowUp::Finish(res),
                WaitOutcome::Lagged => r is RunItself,
                WaitOutcome::Closed => r matches FollowUp::Finish(Err(CoalescingError::Internal(m)))
                    && m@ == closed_channel_message(),
                WaitOutcome::Elapsed => r is RunItself,
            },
    {
        match outcome {
            WaitOutcome::Received(res) => FollowUp::Finish(res),
            WaitOutcome::Lagged => FollowUp::RunItself,
            WaitOutcome::Closed => FollowUp::Finish(
                Err(CoalescingError::Internal("broadcast channel closed".to_owned())),
            ),
            WaitOutcome::Elapsed => FollowUp::RunItself,
        }
    }

    /// Whether no request is in flight.
    pub fn is_idle(&self) -> (r: bool)
        ensures
            r == (self.keys() == Set::<u64>::empty()),
    {
        flights_is_empty(&self.in_flight)
    }

    pub fn enabled(&self) -> (r: bool)
        ensures
            r == self.is_enabled(),
    {
        self.enabled
    }

    pub fn timeout(&self) -> (r: Duration)
        ensures
            r == self.wait_limit(),
    {
        self.timeout
    }
}

// ---------------------------------------------------------------------------
// Laws
// ---------------------------------------------------------------------------

/// Two requests whose queries have the same words, however they are spaced,
/// and the same operation name and variables, get the same key.
pub proof fn lemma_key_ignores_spacing(
    q1: Seq<char>,
    q2: Seq<char>,
    operation_name: Option<Seq<char>>,
    variables_json: Option<Seq<char>>,
)
    requires
        collapse_white_space(q1) == collapse_white_space(q2),
    ensures
        request_key(Some(q1), operation_name, variables_json) == request_key(
            Some(q2),
            operation_name,
            variables_json,
        ),
{
}

/// `t` is in collapsed form: every white-space character in it is a single
/// space between two other characters.
pub open spec fn is_collapsed(t: Seq<char>) -> bool {
    forall|i: int|
        0 <= i < t.len() && #[trigger] is_white_space(t[i]) ==> t[i] == ' ' && 0 < i < t.len() - 1
            && !is_white_space(t[i - 1]) && !is_white_space(t[i + 1])
}

proof fn lemma_collapse_is_collapsed(s: Seq<char>)
    ensures
        is_collapsed(collapse_white_space(s)),
    decreases s.len(),
{
    if s.len() > 0 {
        let prior = collapse_white_space(s.drop_last());
        lemma_collapse_is_collapsed(s.drop_last());
        let c = s.last();
        if !is_white_space(c) {
            if prior.len() > 0 {
                assert(!is_white_space(prior[prior.len() - 1]));
            }
            let t = collapse_white_space(s);
            assert forall|i: int| 0 <= i < t.len() && #[trigger] is_white_space(t[i]) implies t[i] == ' '
                && 0 < i < t.len() - 1 && !is_white_space(t[i - 1]) && !is_white_space(t[i + 1]) by {
                if i < prior.len() {
                    assert(t[i] == prior[i]);
                    assert(t[i - 1] == prior[i - 1]);
                    if i + 1 < prior.len() {
                        assert(t[i + 1] == prior[i + 1]);
                    }
                }
            }
        }
    }
}

proof fn lemma_collapse_prefix(t: Seq<char>, k: int)
    requires
        is_collapsed(t),
        0 <= k <= t.len(),
    ensures
        collapse_white_space(t.take(k)) == if k > 0 && is_white_space(t[k - 1]) {
            t.take(k - 1)
        } else {
            t.take(k)
        },
    decreases k,
{
    if k > 0 {
        lemma_collapse_prefix(t, k - 1);
        let s = t.take(k);
        assert(s.drop_last() =~= t.take(k - 1));
        assert(s.last() == t[k - 1]);
        if is_white_space(t[k - 1]) {
            assert(is_white_space(t[k - 1]));
        } else if k >= 2 && is_white_space(t[k - 2]) {
            assert(is_white_space(t[k - 2]));
            assert(t.take(k - 2).push(' ').push(t[k - 1]) =~= t.take(k));
        } else {
            assert(t.take(k - 1).push(t[k - 1]) =~= t.take(k));
        }
    } else {
        assert(t.take(0) =~= Seq::<char>::empty());
    }
}

/// Collapsing white space twice is the same as collapsing it once.
pub proof fn lemma_collapse_idempotent(s: Seq<char>)
    ensures
        collapse_white_space(collapse_white_space(s)) == collapse_white_space(s),
{
    let t = collapse_white_space(s);
    lemma_collapse_is_collapsed(s);
    lemma_collapse_prefix(t, t.len() as int);
    assert(t.take(t.len() as int) =~= t);
    if t.len() > 0 {
        assert(!is_white_space(t[t.len() - 1]));
    }
}

/// A request keyed with its query already normalised gets the key of the
/// request itself.
pub proof fn lemma_key_of_normalized_query(
    q: Seq<char>,
    operation_name: Option<Seq<char>>,
    variables_json: Option<Seq<char>>,
)
    ensures
        request_key(Some(collapse_white_space(q)), operation_name, variables_json) == request_key(
            Some(q),
            operation_name,
            variables_json,
        ),
{
    lemma_collapse_idempotent(q);
}

/// While a request leads for a key, an identical request follows it.
pub proof fn lemma_identical_request_follows(keys: Set<u64>, key: u64)
    requires
        admission_for(true, keys, key) == Admission::Lead,
    ensures
        admission_for(true, keys_after_admission(true, keys, key), key) == Admission::Follow,
{
}

/// A leader that completes leaves the keys in flight as they were before
/// it arrived; after a lone request nothing is in flight.
pub proof fn lemma_leader_cleans_up(keys: Set<u64>, key: u64)
    requires
        admission_for(true, keys, key) == Admission::Lead,
    ensures
        keys_after_admission(true, keys, key).remove(key) == keys,
        keys_after_admission(true, Set::<u64>::empty(), key).remove(key) == Set::<u64>::empty(),
{
    assert(keys_after_admission(true, keys, key).remove(key) =~= keys);
    assert(keys_after_admission(true, Set::<u64>::empty(), key).remove(key) =~= Set::<u64>::empty());
}

/// With coalescing off every request bypasses and nothing is recorded.
pub proof fn lemma_disabled_bypasses(keys: Set<u64>, key: u64)
    ensures
        admission_for(false, keys, key) == Admission::Bypass,
        keys_after_admission(false, keys, key) == keys,
{
}

/// A request in flight for one key has no effect on a request for another.
pub proof fn lemma_distinct_keys_independent(keys: Set<u64>, leader: u64, key: u64)
    requires
        leader != key,
    ensures
        admission_for(true, keys.insert(leader), key) == admission_for(true, keys, key),
{
}

/// Requests that differ only in their variables (present in one and absent
/// in the other, or with different JSON text) feed their hasher different
/// inputs, whatever query and operation name they share: the variables are
/// part of a request's identity whether or not an operation name is given.
pub proof fn lemma_variables_distinguish_keys(
    query: Option<Seq<char>>,
    operation_name: Option<Seq<char>>,
    v1: Option<Seq<char>>,
    v2: Option<Seq<char>>,
)
    requires
        v1 != v2,
    ensures
        key_writes(query, operation_name, v1) != key_writes(query, operation_name, v2),
{
    let w1 = key_writes(query, operation_name, v1);
    let w2 = key_writes(query, operation_name, v2);
    let prefix = optional_writes(
        match query {
            Some(q) => Some(collapse_white_space(q)),
            None => None,
        },
    ) + optional_writes(operation_name);
    assert(w1 == prefix + optional_writes(v1));
    assert(w2 == prefix + optional_writes(v2));
    if w1 == w2 {
        assert(w1.len() == w2.len());
        match (v1, v2) {
            (Some(a), Some(b)) => {
                let n = prefix.len() as int;
                assert(w1[n] == encode_utf8(a));
                assert(w2[n] == encode_utf8(b));
                vstd::utf8::encode_utf8_decode_utf8(a);
                vstd::utf8::encode_utf8_decode_utf8(b);
                assert(a == b);
            },
            _ => {},
        }
    }
}

/// The hasher input of a request with query `q`, operation name `n` and
/// variables text `v`: the writes of the query with white space collapsed,
/// then of the name, then of the variables.
pub proof fn lemma_key_writes_order(q: Seq<char>, n: Seq<char>, v: Seq<char>)
    ensures
        key_writes(Some(q), Some(n), Some(v)) == seq![
            encode_utf8(collapse_white_space(q)),
            seq![0xFFu8],
            encode_utf8(n),
            seq![0xFFu8],
            encode_utf8(v),
            seq![0xFFu8],
        ],
{
    assert(key_writes(Some(q), Some(n), Some(v)) =~= seq![
        encode_utf8(collapse_white_space(q)),
        seq![0xFFu8],
        encode_utf8(n),
        seq![0xFFu8],
        encode_utf8(v),
        seq![0xFFu8],
    ]);
}

} // verus!
