//! Decimal rendering of positions in messages.
use vstd::prelude::*;

verus! {

pub open spec fn digit_char(d: int) -> char {
    (d + 48) as char
}

/// Decimal digits of `n`, most significant first, without leading zeros.
pub open spec fn decimal(n: nat) -> Seq<char>
    decreases n,
{
    if n < 10 {
        seq![digit_char(n as int)]
    } else {
        decimal(n / 10).push(digit_char((n % 10) as int))
    }
}

/// `prefix` followed by `pos` in decimal, formatted by std's `format!`
/// (the `Display` of `usize`, which writes decimal digits without sign or
/// padding).
#[verifier::external_body]
pub fn message_with_position(prefix: &str, pos: usize) -> (r: String)
    ensures
        r@ == prefix@ + decimal(pos as nat),
{
    format!("{}{}", prefix, pos)
}

/// An optional string taken by its characters.
pub open spec fn opt_view(o: Option<String>) -> Option<Seq<char>> {
    match o {
        Some(s) => Some(s@),
        None => None,
    }
}

} // verus!
