use std::time::Duration;

use gateway::coalescing::{
    normalize_whitespace, Admission, Coalescer, CoalescingError, FollowUp, WaitOutcome,
};

fn vars(text: &str) -> serde_json::Value {
    serde_json::from_str(text).unwrap()
}

#[test]
fn make_key_normalizes_whitespace() {
    let key1 = Coalescer::make_key(
        Some("query { article(ean:\"42\") { ean name } }"),
        None,
        None,
    );
    let key2 = Coalescer::make_key(
        Some("query   {   article(ean:\"42\") { ean   name }   }"),
        None,
        None,
    );
    assert_eq!(key1, key2);
}

#[test]
fn make_key_distinguishes_variables() {
    let key1 = Coalescer::make_key(
        Some("{ article(ean: $ean) { name } }"),
        None,
        Some(&vars(r#"{"ean": "42"}"#)),
    );
    let key2 = Coalescer::make_key(
        Some("{ article(ean: $ean) { name } }"),
        None,
        Some(&vars(r#"{"ean": "99"}"#)),
    );
    assert_ne!(key1, key2);
}

// ---------------------------------------------------------------------------
// Further scenarios
// ---------------------------------------------------------------------------

#[test]
fn whitespace_is_collapsed() {
    assert_eq!(normalize_whitespace("  a \t\n b  "), "a b");
    assert_eq!(normalize_whitespace(""), "");
    assert_eq!(normalize_whitespace(" \r\n "), "");
    assert_eq!(normalize_whitespace("x\u{3000}y\u{a0}z"), "x y z");
    let samples = ["query   {  a }", "\u{2003}lead", "trail\u{85}", "a\u{200b}b"];
    for s in samples {
        let expected = s.split_whitespace().collect::<Vec<_>>().join(" ");
        assert_eq!(normalize_whitespace(s), expected);
    }
}

#[test]
fn make_key_distinguishes_operation_names() {
    let q = Some("query A { a } query B { b }");
    assert_ne!(Coalescer::make_key(q, Some("A"), None), Coalescer::make_key(q, Some("B"), None));
    assert_eq!(Coalescer::make_key(q, Some("A"), None), Coalescer::make_key(q, Some("A"), None));
}

#[test]
fn make_key_uses_the_canonical_variable_text() {
    let a = Coalescer::make_key(Some("{ a }"), None, Some(&vars(r#"{"x": 1, "y": 2}"#)));
    let b = Coalescer::make_key(Some("{ a }"), None, Some(&vars(r#"{ "y":2,"x":1 }"#)));
    assert_eq!(a, b);
}

#[test]
fn lone_request_leads_and_leaves_nothing_in_flight() {
    let mut c = Coalescer::new(true, Duration::from_secs(5));
    let key = Coalescer::make_key(Some("{ test }"), None, None);
    assert!(c.is_idle());
    assert!(c.arrive(key) == Admission::Lead);
    assert!(!c.is_idle());
    c.complete(key);
    assert!(c.is_idle());
}

#[test]
fn identical_request_follows_the_leader() {
    let mut c = Coalescer::new(true, Duration::from_secs(5));
    let key = Coalescer::make_key(Some("{ article(ean:\"42\") { ean } }"), None, None);
    assert!(c.arrive(key) == Admission::Lead);
    assert!(c.arrive(key) == Admission::Follow);
    c.complete(key);
    assert!(c.is_idle());
    assert!(c.arrive(key) == Admission::Lead);
}

#[test]
fn different_keys_lead_independently() {
    let mut c = Coalescer::new(true, Duration::from_secs(5));
    let key1 = Coalescer::make_key(Some("{ article(ean:\"1\") { ean } }"), None, None);
    let key2 = Coalescer::make_key(Some("{ article(ean:\"2\") { ean } }"), None, None);
    assert!(key1 != key2);
    assert!(c.arrive(key1) == Admission::Lead);
    assert!(c.arrive(key2) == Admission::Lead);
    c.complete(key1);
    assert!(c.arrive(key2) == Admission::Follow);
}

#[test]
fn disabled_coalescer_bypasses() {
    let mut c = Coalescer::new(false, Duration::from_secs(5));
    let key = Coalescer::make_key(Some("{ test }"), None, None);
    assert!(c.arrive(key) == Admission::Bypass);
    assert!(c.arrive(key) == Admission::Bypass);
    assert!(c.is_idle());
    assert!(!c.enabled());
}

#[test]
fn follower_outcomes() {
    let c = Coalescer::new(true, Duration::from_millis(250));
    assert_eq!(c.timeout(), Duration::from_millis(250));
    match c.follow_up(WaitOutcome::Received(Ok::<u32, CoalescingError>(7))) {
        FollowUp::Finish(Ok(v)) => assert_eq!(v, 7),
        _ => panic!("expected the leader's result"),
    }
    assert!(matches!(c.follow_up::<u32>(WaitOutcome::Lagged), FollowUp::RunItself));
    match c.follow_up::<u32>(WaitOutcome::Closed) {
        FollowUp::Finish(Err(CoalescingError::Internal(m))) => {
            assert_eq!(m, "broadcast channel closed")
        }
        _ => panic!("expected an internal error"),
    }
    // A follower whose wait runs out makes its own call.
    assert!(matches!(c.follow_up::<u32>(WaitOutcome::Elapsed), FollowUp::RunItself));
}
