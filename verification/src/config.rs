//! Gateway settings: each one read from its environment variable, with a
//! default where the variable is unset or does not parse.
use vstd::prelude::*;
use vstd::std_specs::iter::IteratorSpec;

use crate::text::{decimal, digit_char};

verus! {

/// The gateway's settings.
pub struct Config {
    /// Host part of the listening address (an IP address in text form).
    pub host: String,
    pub port: u16,
    pub max_cost: u32,
    pub max_depth: u32,
    pub apq_cache_size: usize,
    pub coalescing_enabled: bool,
    pub request_timeout_secs: u64,
}

pub open spec fn is_digit(c: char) -> bool {
    '0' <= c && c <= '9'
}

/// The value of a string of decimal digits.
pub open spec fn digits_value(s: Seq<char>) -> int
    decreases s.len(),
{
    if s.len() == 0 {
        0
    } else {
        digits_value(s.drop_last()) * 10 + (s.last() as int - '0' as int)
    }
}

/// Every character of `s` is a decimal digit.
pub open spec fn all_digits(s: Seq<char>) -> bool {
    forall|i: int| 0 <= i < s.len() ==> is_digit(#[trigger] s[i])
}

/// `s` without the `+` sign it may start with.
pub open spec fn unsigned_body(s: Seq<char>) -> Seq<char> {
    if s.len() > 0 && s[0] == '+' {
        s.drop_first()
    } else {
        s
    }
}

/// What `str::parse` yields for an unsigned integer type whose largest value
/// is `max`: an optional `+` followed by one or more decimal digits whose
/// value is at most `max`; anything else is an error (`None`).
pub open spec fn parsed_unsigned(s: Seq<char>, max: int) -> Option<int> {
    let body = unsigned_body(s);
    if body.len() > 0 && all_digits(body) && digits_value(body) <= max {
        Some(digits_value(body))
    } else {
        None
    }
}

/// What `str::parse::<bool>` yields: `true` and `false` exactly.
pub open spec fn parsed_bool(s: Seq<char>) -> Option<bool> {
    if s == "true"@ {
        Some(true)
    } else if s == "false"@ {
        Some(false)
    } else {
        None
    }
}

proof fn lemma_digits_value_nonneg(s: Seq<char>)
    requires
        forall|i: int| 0 <= i < s.len() ==> is_digit(#[trigger] s[i]),
    ensures
        digits_value(s) >= 0,
    decreases s.len(),
{
    if s.len() > 0 {
        assert forall|i: int| 0 <= i < s.drop_last().len() implies is_digit(#[trigger] s.drop_last()[i]) by {
            assert(s.drop_last()[i] == s[i]);
        }
        lemma_digits_value_nonneg(s.drop_last());
    }
}

/// Digits appended to a digit string never lower its value.
proof fn lemma_digits_value_grows(s: Seq<char>, k: int)
    requires
        0 <= k <= s.len(),
        forall|i: int| 0 <= i < s.len() ==> is_digit(#[trigger] s[i]),
    ensures
        digits_value(s.take(k)) <= digits_value(s),
    decreases s.len() - k,
{
    if k < s.len() {
        lemma_digits_value_grows(s, k + 1);
        let t = s.take(k + 1);
        assert(t.drop_last() =~= s.take(k));
        assert(t.last() == s[k]);
        assert forall|i: int| 0 <= i < s.take(k).len() implies is_digit(#[trigger] s.take(k)[i]) by {
            assert(s.take(k)[i] == s[i]);
        }
        lemma_digits_value_nonneg(s.take(k));
    } else {
        assert(s.take(k) =~= s);
    }
}

/// Once a prefix of a digit string exceeds `max`, the string is not a
/// parse result no larger than `max`.
proof fn lemma_too_large(body: Seq<char>, k: int, max: int)
    requires
        0 <= k <= body.len(),
        forall|i: int| 0 <= i < k ==> is_digit(#[trigger] body[i]),
        digits_value(body.take(k)) > max,
    ensures
        !(all_digits(body) && digits_value(body) <= max),
{
    if all_digits(body) {
        lemma_digits_value_grows(body, k);
    }
}

/// Parses an unsigned decimal integer no larger than `max`, as `str::parse`
/// does for an unsigned integer type with that maximum.
pub fn parse_unsigned(s: &str, max: u64) -> (r: Option<u64>)
    ensures
        match r {
            Some(v) => parsed_unsigned(s@, max as int) == Some(v as int),
            None => parsed_unsigned(s@, max as int) is None,
        },
{
    let ghost all = s@;
    let mut it = s.chars();
    let mut first = true;
    let mut value: u64 = 0;
    let mut any_digit = false;
    let ghost mut seen: int = 0;
    let ghost mut done: Seq<char> = Seq::empty();
    let ghost body = unsigned_body(all);
    let ghost skip: int = if all.len() > 0 && all[0] == '+' {
        1
    } else {
        0
    };
    loop
        invariant
            all == s@,
            done + it.remaining() == all,
            it.obeys_prophetic_iter_laws(),
            it.decrease() is Some,
            first == (done.len() == 0),
            body == unsigned_body(all),
            skip == (if all.len() > 0 && all[0] == '+' {
                1int
            } else {
                0int
            }),
            body == all.subrange(skip, all.len() as int),
            done.len() > 0 ==> done.len() >= skip,
            seen == if done.len() > 0 { done.len() - skip } else { 0 },
            any_digit == (seen > 0),
            0 <= seen <= body.len(),
            forall|i: int| 0 <= i < seen ==> is_digit(#[trigger] body[i]),
            value == digits_value(body.take(seen)),
            value <= max,
        decreases it.decrease()->0,
    {
        match it.next() {
            Some(c) => {
                proof {
                    assert(done.push(c) + it.remaining() =~= all);
                }
                if first && c == '+' {
                    first = false;
                    proof {
                        done = done.push(c);
                    }
                } else {
                    first = false;
                    proof {
                        assert(body[seen] == c);
                    }
                    if c < '0' || c > '9' {
                        proof {
                            assert(!is_digit(body[seen]));
                        }
                        return None;
                    }
                    let d = (c as u32 - '0' as u32) as u64;
                    if d > max || value > (max - d) / 10 {
                        proof {
                            let t = body.take(seen + 1);
                            assert(t.drop_last() =~= body.take(seen));
                            assert(t.last() == c);
                            assert(digits_value(t) == value * 10 + d);
                            assert(value * 10 + d > max) by (nonlinear_arith)
                                requires
                                    d > max || value > (max - d) / 10,
                                    d <= 9,
                            ;
                            lemma_too_large(body, seen + 1, max as int);
                        }
                        return None;
                    }
                    proof {
                        let t = body.take(seen + 1);
                        assert(t.drop_last() =~= body.take(seen));
                        assert(value * 10 + d <= max) by (nonlinear_arith)
                            requires
                                value <= (max - d) / 10,
                                d <= max,
                        ;
                    }
                    value = value * 10 + d;
                    any_digit = true;
                    proof {
                        seen = seen + 1;
                        done = done.push(c);
                    }
                }
            },
            None => {
                proof {
                    assert(done =~= all);
                    assert(body.take(seen) =~= body);
                }
                if !any_digit {
                    return None;
                }
                return Some(value);
            },
        }
    }
}

/// Parses `true` or `false`, as `str::parse::<bool>` does.
pub fn parse_bool(s: &str) -> (r: Option<bool>)
    ensures
        r == parsed_bool(s@),
{
    let t = s.to_owned();
    if t == "true".to_owned() {
        Some(true)
    } else if t == "false".to_owned() {
        Some(false)
    } else {
        None
    }
}

/// The value of an unsigned setting: the parsed text where it is set and
/// parses, `default` otherwise.
pub open spec fn unsigned_setting(v: Option<String>, max: int, default: int) -> int {
    match v {
        Some(s) => match parsed_unsigned(s@, max) {
            Some(n) => n,
            None => default,
        },
        None => default,
    }
}

pub open spec fn bool_setting(v: Option<String>, default: bool) -> bool {
    match v {
        Some(s) => match parsed_bool(s@) {
            Some(b) => b,
            None => default,
        },
        None => default,
    }
}

fn unsigned_or(v: &Option<String>, max: u64, default: u64) -> (r: u64)
    requires
        default <= max,
    ensures
        r == unsigned_setting(*v, max as int, default as int),
        r <= max,
{
    match v {
        Some(s) => match parse_unsigned(s.as_str(), max) {
            Some(n) => n,
            None => default,
        },
        None => default,
    }
}

impl Config {
    /// The settings from the values of `GATEWAY_HOST`, `GATEWAY_PORT`,
    /// `GATEWAY_MAX_COST`, `GATEWAY_MAX_DEPTH`, `GATEWAY_APQ_CACHE_SIZE`,
    /// `GATEWAY_COALESCING_ENABLED` and `GATEWAY_REQUEST_TIMEOUT_SECS`
    /// (`None` where unset). Defaults: host 0.0.0.0, port 4000, cost 100,
    /// depth 10, cache 10000 entries, coalescing on, timeout 30 s.
    pub fn from_values(
        host: Option<String>,
        port: Option<String>,
        max_cost: Option<String>,
        max_depth: Option<String>,
        apq_cache_size: Option<String>,
        coalescing_enabled: Option<String>,
        request_timeout_secs: Option<String>,
    ) -> (r: Config)
        ensures
            r.host@ == match host {
                Some(h) => h@,
                None => "0.0.0.0"@,
            },
            r.port == unsigned_setting(port, u16::MAX as int, 4000),
            r.max_cost == unsigned_setting(max_cost, u32::MAX as int, 100),
            r.max_depth == unsigned_setting(max_depth, u32::MAX as int, 10),
            r.apq_cache_size == unsigned_setting(apq_cache_size, usize::MAX as int, 10000),
            r.coalescing_enabled == bool_setting(coalescing_enabled, true),
            r.request_timeout_secs == unsigned_setting(request_timeout_secs, u64::MAX as int, 30),
    {
        let host = match host {
            Some(h) => h,
            None => "0.0.0.0".to_owned(),
        };
        let port = unsigned_or(&port, u16::MAX as u64, 4000) as u16;
        let max_cost = unsigned_or(&max_cost, u32::MAX as u64, 100) as u32;
        let max_depth = unsigned_or(&max_depth, u32::MAX as u64, 10) as u32;
        let apq_cache_size = unsigned_or(&apq_cache_size, usize::MAX as u64, 10000) as usize;
        let coalescing_enabled = match &coalescing_enabled {
            Some(s) => match parse_bool(s.as_str()) {
                Some(b) => b,
                None => true,
            },
            None => true,
        };
        let request_timeout_secs = unsigned_or(&request_timeout_secs, u64::MAX, 30);
        Config {
            host,
            port,
            max_cost,
            max_depth,
            apq_cache_size,
            coalescing_enabled,
            request_timeout_secs,
        }
    }
}

// ---------------------------------------------------------------------------
// Laws
// ---------------------------------------------------------------------------

proof fn lemma_decimal_digits(n: nat)
    ensures
        decimal(n).len() > 0,
        all_digits(decimal(n)),
        digits_value(decimal(n)) == n,
    decreases n,
{
    assert(digit_char((n % 10) as int) as int == (n % 10) + 48);
    assert(n == (n / 10) * 10 + n % 10);
    if n < 10 {
        let d = decimal(n);
        assert(d.drop_last() =~= Seq::<char>::empty());
        assert(digits_value(d.drop_last()) == 0);
        assert(d.last() == digit_char(n as int));
    }
    if n >= 10 {
        lemma_decimal_digits(n / 10);
        let d = decimal(n);
        assert(d == decimal(n / 10).push(digit_char((n % 10) as int)));
        assert(d.drop_last() =~= decimal(n / 10));
        assert(d.last() == digit_char((n % 10) as int));
        assert(digits_value(d) == digits_value(d.drop_last()) * 10 + (d.last() as int - '0' as int));
        assert(digits_value(d) == (n / 10) * 10 + (n % 10));
        assert forall|i: int| 0 <= i < d.len() implies is_digit(#[trigger] d[i]) by {
            if i < d.len() - 1 {
                assert(d[i] == decimal(n / 10)[i]);
            }
        }
    }
}

/// A setting written as the decimal digits of a number no larger than the
/// setting's maximum reads back as that number.
pub proof fn lemma_decimal_setting_parses(n: nat, max: int)
    requires
        n <= max,
    ensures
        parsed_unsigned(decimal(n), max) == Some(n as int),
{
    lemma_decimal_digits(n);
    let d = decimal(n);
    assert(is_digit(d[0]));
    assert(unsigned_body(d) == d);
}

} // verus!
