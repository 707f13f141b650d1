use gateway::apq::{constant_time_eq, query_hash, ApqCache, ApqErrorResponse};
use sha2::{Digest, Sha256};

#[test]
fn store_and_lookup() {
    let mut cache = ApqCache::new(10);
    let hash = cache.store("{ article(ean: \"42\") { ean } }");
    assert_eq!(hash.len(), 64);
    assert!(cache.lookup(&hash).is_some());
    assert!(cache.lookup("deadbeef").is_none());
}

#[test]
fn same_query_produces_same_hash() {
    let mut cache = ApqCache::new(10);
    let h1 = cache.store("query { test }");
    let h2 = cache.store("query { test }");
    assert_eq!(h1, h2);
}

#[test]
fn hash_mismatch_rejected() {
    let mut cache = ApqCache::new(10);
    let hash = hex::encode(Sha256::digest(b"query { valid }"));
    assert!(cache.lookup_and_store(&hash, "query { different }").is_none());
}

#[test]
fn eviction_on_full_cache() {
    let mut cache = ApqCache::new(3);
    cache.store("query { a }");
    cache.store("query { b }");
    cache.store("query { c }");
    assert_eq!(cache.len(), 3);

    cache.store("query { d }");
    assert_eq!(cache.len(), 3);
}

#[test]
fn constant_time_eq_safety() {
    assert!(constant_time_eq(b"abc", b"abc"));
    assert!(!constant_time_eq(b"abc", b"abd"));
    assert!(!constant_time_eq(b"abc", b"ab"));
}

// ---------------------------------------------------------------------------
// Further scenarios
// ---------------------------------------------------------------------------

#[test]
fn hash_is_hex_sha256() {
    assert_eq!(
        query_hash("query { test }"),
        "f2f8ccd721ae2dcf38dc5365e42e3bd5686f5c823b079a2e0ca3de8ec45e8399"
    );
    assert_eq!(
        query_hash(""),
        "e3b0c44298fc1c149afbf4c8996fb92427ae41e4649b934ca495991b7852b855"
    );
}

#[test]
fn lookup_returns_the_stored_query() {
    let mut cache = ApqCache::new(10);
    let hash = cache.store("{ article(ean: \"42\") { ean } }");
    assert_eq!(
        hash,
        "96501a4ae2632d97e087c9386e25db1a29995af34f99924ad1dca958373e4dfc"
    );
    assert_eq!(
        cache.lookup(&hash),
        Some("{ article(ean: \"42\") { ean } }".to_string())
    );
}

#[test]
fn oldest_entry_is_evicted() {
    let mut cache = ApqCache::new(3);
    let a = cache.store("query { a }");
    let b = cache.store("query { b }");
    let c = cache.store("query { c }");
    let d = cache.store("query { d }");
    assert!(cache.lookup(&a).is_none());
    assert!(cache.lookup(&b).is_some());
    assert!(cache.lookup(&c).is_some());
    assert!(cache.lookup(&d).is_some());
}

#[test]
fn storing_again_refreshes_an_entry() {
    let mut cache = ApqCache::new(2);
    let a = cache.store("query { a }");
    let b = cache.store("query { b }");
    cache.store("query { a }");
    let c = cache.store("query { c }");
    assert!(cache.lookup(&a).is_some());
    assert!(cache.lookup(&b).is_none());
    assert!(cache.lookup(&c).is_some());
}

#[test]
fn zero_capacity_keeps_the_latest_query() {
    let mut cache = ApqCache::new(0);
    assert!(cache.is_empty());
    let a = cache.store("query { a }");
    assert_eq!(cache.len(), 1);
    let b = cache.store("query { b }");
    assert_eq!(cache.len(), 1);
    assert!(cache.lookup(&a).is_none());
    assert!(cache.lookup(&b).is_some());
}

#[test]
fn matching_hash_is_stored() {
    let mut cache = ApqCache::new(10);
    let hash = query_hash("query { valid }");
    assert_eq!(
        cache.lookup_and_store(&hash, "query { valid }"),
        Some("query { valid }".to_string())
    );
    assert_eq!(cache.lookup(&hash), Some("query { valid }".to_string()));
}

#[test]
fn mismatched_hash_changes_nothing() {
    let mut cache = ApqCache::new(10);
    let hash = query_hash("query { valid }");
    assert!(cache.lookup_and_store(&hash, "query { different }").is_none());
    assert!(cache.is_empty());
}

#[test]
fn not_found_response_body() {
    let r = ApqErrorResponse::not_found();
    assert_eq!(r.errors.len(), 1);
    assert_eq!(r.errors[0].message, "PersistedQueryNotFound");
    assert_eq!(r.errors[0].extensions.code, "PERSISTED_QUERY_NOT_FOUND");
}

#[test]
fn least_recently_used_entry_is_evicted() {
    let mut cache = ApqCache::new(3);
    let a = cache.store("query { a }");
    let b = cache.store("query { b }");
    cache.store("query { c }");
    assert!(cache.lookup(&a).is_some());
    cache.store("query { d }");
    assert_eq!(cache.len(), 3);
    assert!(cache.lookup(&a).is_some());
    assert!(cache.lookup(&b).is_none());
}

#[test]
fn a_miss_does_not_count_as_use() {
    let mut cache = ApqCache::new(2);
    let a = cache.store("query { a }");
    let b = cache.store("query { b }");
    assert!(cache.lookup("deadbeef").is_none());
    cache.store("query { c }");
    assert!(cache.lookup(&a).is_none());
    assert!(cache.lookup(&b).is_some());
}
