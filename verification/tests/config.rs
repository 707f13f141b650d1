use gateway::config::{parse_bool, parse_unsigned, Config};

fn s(v: &str) -> Option<String> {
    Some(v.to_string())
}

#[test]
fn defaults_when_unset() {
    let c = Config::from_values(None, None, None, None, None, None, None);
    assert_eq!(c.host, "0.0.0.0");
    assert_eq!(c.port, 4000);
    assert_eq!(c.max_cost, 100);
    assert_eq!(c.max_depth, 10);
    assert_eq!(c.apq_cache_size, 10000);
    assert!(c.coalescing_enabled);
    assert_eq!(c.request_timeout_secs, 30);
}

#[test]
fn values_are_parsed() {
    let c = Config::from_values(
        s("127.0.0.1"),
        s("8080"),
        s("250"),
        s("+7"),
        s("64"),
        s("false"),
        s("5"),
    );
    assert_eq!(c.host, "127.0.0.1");
    assert_eq!(c.port, 8080);
    assert_eq!(c.max_cost, 250);
    assert_eq!(c.max_depth, 7);
    assert_eq!(c.apq_cache_size, 64);
    assert!(!c.coalescing_enabled);
    assert_eq!(c.request_timeout_secs, 5);
}

#[test]
fn unparsable_values_fall_back() {
    let c = Config::from_values(
        None,
        s("70000"),
        s("-1"),
        s(" 5"),
        s(""),
        s("yes"),
        s("3s"),
    );
    assert_eq!(c.port, 4000);
    assert_eq!(c.max_cost, 100);
    assert_eq!(c.max_depth, 10);
    assert_eq!(c.apq_cache_size, 10000);
    assert!(c.coalescing_enabled);
    assert_eq!(c.request_timeout_secs, 30);
}

#[test]
fn unsigned_parsing_follows_str_parse() {
    for text in ["0", "7", "+7", "0042", "65535", "65536", "", "+", "-1", "1_000", " 1", "1 ", "١"] {
        let ours = parse_unsigned(text, u16::MAX as u64);
        let expected = text.parse::<u16>().ok().map(|v| v as u64);
        assert_eq!(ours, expected, "input {:?}", text);
    }
    assert_eq!(parse_unsigned("18446744073709551615", u64::MAX), Some(u64::MAX));
    assert_eq!(parse_unsigned("18446744073709551616", u64::MAX), None);
}

#[test]
fn bool_parsing_follows_str_parse() {
    for text in ["true", "false", "True", "FALSE", "1", "", " true"] {
        assert_eq!(parse_bool(text), text.parse::<bool>().ok(), "input {:?}", text);
    }
}
