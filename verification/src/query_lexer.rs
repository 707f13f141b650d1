//! Byte-level scanning primitives for GraphQL query text.
//!
//! Every scanner works on the UTF-8 bytes of the query and a position into
//! them.  Positions may run one past the end (a backslash escape at the very
//! end of a string literal steps over the last byte), so all specifications
//! accept positions up to `len + 1`.
use vstd::prelude::*;

verus! {

// ---------------------------------------------------------------------------
// Byte classes
// ---------------------------------------------------------------------------

/// Insignificant bytes between tokens: ASCII whitespace as Rust's
/// `u8::is_ascii_whitespace` defines it (space, tab, line feed, form feed,
/// carriage return).
pub open spec fn is_ws(c: u8) -> bool {
    c == 0x20u8 || c == 0x09u8 || c == 0x0Au8 || c == 0x0Cu8 || c == 0x0Du8
}

pub open spec fn is_alpha(c: u8) -> bool {
    (0x41u8 <= c && c <= 0x5Au8) || (0x61u8 <= c && c <= 0x7Au8)
}

pub open spec fn is_digit(c: u8) -> bool {
    0x30u8 <= c && c <= 0x39u8
}

pub open spec fn is_alnum(c: u8) -> bool {
    is_alpha(c) || is_digit(c)
}

/// Bytes that may appear in a GraphQL name.
pub open spec fn is_name_byte(c: u8) -> bool {
    is_alnum(c) || c == 0x5Fu8
}

/// Bytes that a directive token (`@include`, `@skip-x`) may span.
pub open spec fn is_word_byte(c: u8) -> bool {
    is_name_byte(c) || c == 0x40u8 || c == 0x2Du8
}

/// ASCII lower-casing of a single byte.
pub open spec fn lower(c: u8) -> u8 {
    if 0x41u8 <= c && c <= 0x5Au8 {
        (c + 32) as u8
    } else {
        c
    }
}

pub fn is_ws_byte(c: u8) -> (r: bool)
    ensures
        r == is_ws(c),
{
    c == 0x20u8 || c == 0x09u8 || c == 0x0Au8 || c == 0x0Cu8 || c == 0x0Du8
}

pub fn is_alpha_byte(c: u8) -> (r: bool)
    ensures
        r == is_alpha(c),
{
    (0x41u8 <= c && c <= 0x5Au8) || (0x61u8 <= c && c <= 0x7Au8)
}

pub fn is_alnum_byte(c: u8) -> (r: bool)
    ensures
        r == is_alnum(c),
{
    is_alpha_byte(c) || (0x30u8 <= c && c <= 0x39u8)
}

pub fn is_name_char(c: u8) -> (r: bool)
    ensures
        r == is_name_byte(c),
{
    is_alnum_byte(c) || c == 0x5Fu8
}

pub fn is_word_char(c: u8) -> (r: bool)
    ensures
        r == is_word_byte(c),
{
    is_name_char(c) || c == 0x40u8 || c == 0x2Du8
}

pub fn lower_byte(c: u8) -> (r: u8)
    ensures
        r == lower(c),
{
    if 0x41u8 <= c && c <= 0x5Au8 {
        c + 32
    } else {
        c
    }
}

// ---------------------------------------------------------------------------
// Scanner specifications
// ---------------------------------------------------------------------------

/// Position reached from `p` by skipping whitespace and `#` line comments;
/// `in_comment` says that `p` lies inside a comment.
pub open spec fn skip_ws_from(b: Seq<u8>, p: int, in_comment: bool) -> int
    decreases b.len() - p,
{
    if p < 0 || p >= b.len() {
        p
    } else if in_comment {
        if b[p] == 0x0Au8 {
            skip_ws_from(b, p + 1, false)
        } else {
            skip_ws_from(b, p + 1, true)
        }
    } else if is_ws(b[p]) {
        skip_ws_from(b, p + 1, false)
    } else if b[p] == 0x23u8 {
        skip_ws_from(b, p + 1, true)
    } else {
        p
    }
}

/// Position of the first byte at or after `p` that is neither whitespace nor
/// part of a `#` comment.
pub open spec fn skip_ws(b: Seq<u8>, p: int) -> int {
    skip_ws_from(b, p, false)
}

/// End of the run of name bytes that starts at `p`.
pub open spec fn name_end(b: Seq<u8>, p: int) -> int
    decreases b.len() - p,
{
    if 0 <= p < b.len() && is_name_byte(b[p]) {
        name_end(b, p + 1)
    } else {
        p
    }
}

/// End of the run of word bytes that starts at `p`.
pub open spec fn word_end(b: Seq<u8>, p: int) -> int
    decreases b.len() - p,
{
    if 0 <= p < b.len() && is_word_byte(b[p]) {
        word_end(b, p + 1)
    } else {
        p
    }
}

/// Position after a name: whitespace is skipped first, then the name.
pub open spec fn consume_name(b: Seq<u8>, p: int) -> int {
    name_end(b, skip_ws(b, p))
}

/// Position after a directive-like word: whitespace first, then word bytes.
pub open spec fn skip_word(b: Seq<u8>, p: int) -> int {
    word_end(b, skip_ws(b, p))
}

/// Position after the closing `quote` of a string whose body starts at `p`.
/// A backslash skips the byte after it; an unterminated string ends at or
/// just past the end of the input.
pub open spec fn string_end(b: Seq<u8>, p: int, quote: u8) -> int
    decreases b.len() + 2 - p,
{
    if p < 0 || p >= b.len() {
        p
    } else if b[p] == 0x5Cu8 {
        string_end(b, p + 2, quote)
    } else if b[p] == quote {
        p + 1
    } else {
        string_end(b, p + 1, quote)
    }
}

/// Position after the string literal whose opening quote is at `p`.
pub open spec fn skip_string(b: Seq<u8>, p: int) -> int
    recommends
        0 <= p < b.len(),
{
    string_end(b, p + 1, b[p])
}

pub proof fn lemma_string_end_bounds(b: Seq<u8>, p: int, quote: u8)
    requires
        0 <= p <= b.len() + 1,
    ensures
        p <= string_end(b, p, quote) <= b.len() + 1,
    decreases b.len() + 2 - p,
{
    if p < 0 || p >= b.len() {
    } else if b[p] == 0x5Cu8 {
        lemma_string_end_bounds(b, p + 2, quote);
    } else if b[p] == quote {
    } else {
        lemma_string_end_bounds(b, p + 1, quote);
    }
}

/// Position after a bracketed region: `depth` brackets are open at `p`.
/// `open`/`close` nest; string literals (double-quoted, and single-quoted
/// when `single_quotes`) are skipped whole.
pub open spec fn balanced_end(
    b: Seq<u8>,
    p: int,
    open: u8,
    close: u8,
    depth: int,
    single_quotes: bool,
) -> int
    decreases b.len() + 2 - p,
{
    if p < 0 || p >= b.len() || depth <= 0 {
        p
    } else if b[p] == open {
        balanced_end(b, p + 1, open, close, depth + 1, single_quotes)
    } else if b[p] == close {
        balanced_end(b, p + 1, open, close, depth - 1, single_quotes)
    } else if b[p] == 0x22u8 || (single_quotes && b[p] == 0x27u8) {
        proof {
            lemma_string_end_bounds(b, p + 1, b[p]);
        }
        balanced_end(b, skip_string(b, p), open, close, depth, single_quotes)
    } else {
        balanced_end(b, p + 1, open, close, depth, single_quotes)
    }
}

/// Argument list starting with the `(` at `p`.
pub open spec fn skip_args(b: Seq<u8>, p: int) -> int {
    balanced_end(b, p + 1, 0x28u8, 0x29u8, 1, false)
}

/// Selection set starting with the `{` at `p`, skipped without analysis.
pub open spec fn skip_braces(b: Seq<u8>, p: int) -> int {
    balanced_end(b, p + 1, 0x7Bu8, 0x7Du8, 1, true)
}

/// The bytes at `q .. q + kw.len()` equal `kw` up to ASCII case.
pub open spec fn matches_ignore_case(b: Seq<u8>, q: int, kw: Seq<u8>) -> bool {
    &&& 0 <= q
    &&& q + kw.len() <= b.len()
    &&& forall|i: int| 0 <= i < kw.len() ==> #[trigger] lower(b[q + i]) == lower(kw[i])
}

/// A keyword may end the input or be followed by whitespace, `{` or `(`.
pub open spec fn keyword_boundary(b: Seq<u8>, q: int) -> bool {
    q >= b.len() || is_ws(b[q]) || b[q] == 0x7Bu8 || b[q] == 0x28u8
}

/// Whether `kw` stands (after whitespace) at `p` as a whole word.
pub open spec fn keyword_at(b: Seq<u8>, p: int, kw: Seq<u8>) -> bool {
    let q = skip_ws(b, p);
    matches_ignore_case(b, q, kw) && keyword_boundary(b, q + kw.len())
}

/// Position after consuming `kw` at `p`; `p` itself when it does not stand there.
pub open spec fn consume_keyword(b: Seq<u8>, p: int, kw: Seq<u8>) -> int {
    if keyword_at(b, p, kw) {
        skip_ws(b, p) + kw.len()
    } else {
        p
    }
}

/// Position after a run of directives (`@name` tokens) starting at `p`,
/// whitespace after each one included.
pub open spec fn skip_directives(b: Seq<u8>, p: int) -> int
    decreases b.len() + 2 - p,
{
    if 0 <= p < b.len() && b[p] == 0x40u8 {
        let q = skip_ws(b, skip_word(b, p));
        proof {
            lemma_word_end_bounds(b, p + 1);
            lemma_skip_ws_from_bounds(b, word_end(b, p + 1), false);
        }
        skip_directives(b, q)
    } else {
        p
    }
}

// ---------------------------------------------------------------------------
// Bounds
// ---------------------------------------------------------------------------

pub proof fn lemma_skip_ws_from_bounds(b: Seq<u8>, p: int, c: bool)
    requires
        0 <= p,
    ensures
        p <= skip_ws_from(b, p, c),
        p <= b.len() ==> skip_ws_from(b, p, c) <= b.len(),
        p > b.len() ==> skip_ws_from(b, p, c) == p,
    decreases b.len() - p,
{
    if p < 0 || p >= b.len() {
    } else if c {
        if b[p] == 0x0Au8 {
            lemma_skip_ws_from_bounds(b, p + 1, false);
        } else {
            lemma_skip_ws_from_bounds(b, p + 1, true);
        }
    } else if is_ws(b[p]) {
        lemma_skip_ws_from_bounds(b, p + 1, false);
    } else if b[p] == 0x23u8 {
        lemma_skip_ws_from_bounds(b, p + 1, true);
    }
}

pub proof fn lemma_name_end_bounds(b: Seq<u8>, p: int)
    requires
        0 <= p,
    ensures
        p <= name_end(b, p),
        p <= b.len() ==> name_end(b, p) <= b.len(),
        p > b.len() ==> name_end(b, p) == p,
    decreases b.len() - p,
{
    if 0 <= p < b.len() && is_name_byte(b[p]) {
        lemma_name_end_bounds(b, p + 1);
    }
}

pub proof fn lemma_word_end_bounds(b: Seq<u8>, p: int)
    requires
        0 <= p,
    ensures
        p <= word_end(b, p),
        p <= b.len() ==> word_end(b, p) <= b.len(),
        p > b.len() ==> word_end(b, p) == p,
    decreases b.len() - p,
{
    if 0 <= p < b.len() && is_word_byte(b[p]) {
        lemma_word_end_bounds(b, p + 1);
    }
}

pub proof fn lemma_balanced_end_bounds(
    b: Seq<u8>,
    p: int,
    open: u8,
    close: u8,
    depth: int,
    sq: bool,
)
    requires
        0 <= p <= b.len() + 1,
    ensures
        p <= balanced_end(b, p, open, close, depth, sq) <= b.len() + 1,
    decreases b.len() + 2 - p,
{
    if p < 0 || p >= b.len() || depth <= 0 {
    } else if b[p] == open {
        lemma_balanced_end_bounds(b, p + 1, open, close, depth + 1, sq);
    } else if b[p] == close {
        lemma_balanced_end_bounds(b, p + 1, open, close, depth - 1, sq);
    } else if b[p] == 0x22u8 || (sq && b[p] == 0x27u8) {
        lemma_string_end_bounds(b, p + 1, b[p]);
        lemma_balanced_end_bounds(b, skip_string(b, p), open, close, depth, sq);
    } else {
        lemma_balanced_end_bounds(b, p + 1, open, close, depth, sq);
    }
}

pub proof fn lemma_skip_directives_bounds(b: Seq<u8>, p: int)
    requires
        0 <= p <= b.len() + 1,
    ensures
        p <= skip_directives(b, p) <= b.len() + 1,
        p <= b.len() ==> skip_directives(b, p) <= b.len(),
    decreases b.len() + 2 - p,
{
    if 0 <= p < b.len() && b[p] == 0x40u8 {
        lemma_word_end_bounds(b, p + 1);
        lemma_skip_ws_from_bounds(b, word_end(b, p + 1), false);
        lemma_skip_directives_bounds(b, skip_ws(b, skip_word(b, p)));
    }
}

// ---------------------------------------------------------------------------
// Executable scanners
// ---------------------------------------------------------------------------

/// Advances `pos` past whitespace and `#` line comments.
pub fn skip_whitespace_and_comments(bytes: &[u8], pos: &mut usize)
    requires
        bytes@.len() < usize::MAX,
    ensures
        *final(pos) == skip_ws(bytes@, *old(pos) as int),
{
    let ghost p0 = *pos as int;
    while *pos < bytes.len()
        invariant
            bytes@.len() < usize::MAX,
            skip_ws(bytes@, p0) == skip_ws_from(bytes@, *pos as int, false),
        ensures
            skip_ws(bytes@, p0) == *pos as int,
        decreases bytes@.len() - *pos,
    {
        let c = bytes[*pos];
        if is_ws_byte(c) {
            *pos += 1;
        } else if c == 0x23u8 {
            *pos += 1;
            let ghost after_hash = *pos;
            while *pos < bytes.len() && bytes[*pos] != 0x0Au8
                invariant
                    bytes@.len() < usize::MAX,
                    after_hash <= *pos <= bytes@.len(),
                    skip_ws(bytes@, p0) == skip_ws_from(bytes@, *pos as int, true),
                decreases bytes@.len() - *pos,
            {
                *pos += 1;
            }
        } else {
            break;
        }
    }
}

/// Skips whitespace, then returns the extent `(start, end)` of the name that
/// follows (empty when no name byte stands there) and leaves `pos` at `end`.
pub fn consume_name_range(bytes: &[u8], pos: &mut usize) -> (r: (usize, usize))
    requires
        bytes@.len() < usize::MAX,
    ensures
        r.0 == skip_ws(bytes@, *old(pos) as int),
        r.1 == consume_name(bytes@, *old(pos) as int),
        *final(pos) == r.1,
{
    skip_whitespace_and_comments(bytes, pos);
    let start = *pos;
    while *pos < bytes.len() && is_name_char(bytes[*pos])
        invariant
            bytes@.len() < usize::MAX,
            name_end(bytes@, start as int) == name_end(bytes@, *pos as int),
        decreases bytes@.len() - *pos,
    {
        *pos += 1;
    }
    (start, *pos)
}

/// Skips whitespace and then a directive-like word.
pub fn skip_word_at(bytes: &[u8], pos: &mut usize)
    requires
        bytes@.len() < usize::MAX,
    ensures
        *final(pos) == skip_word(bytes@, *old(pos) as int),
{
    skip_whitespace_and_comments(bytes, pos);
    let ghost start = *pos as int;
    while *pos < bytes.len() && is_word_char(bytes[*pos])
        invariant
            bytes@.len() < usize::MAX,
            word_end(bytes@, start) == word_end(bytes@, *pos as int),
        decreases bytes@.len() - *pos,
    {
        *pos += 1;
    }
}

/// Skips the string literal whose opening quote is at `pos`.
pub fn skip_string_at(bytes: &[u8], pos: &mut usize)
    requires
        bytes@.len() < usize::MAX,
        *old(pos) < bytes@.len(),
    ensures
        *final(pos) == skip_string(bytes@, *old(pos) as int),
{
    let quote = bytes[*pos];
    *pos += 1;
    while *pos < bytes.len()
        invariant
            bytes@.len() < usize::MAX,
            *pos <= bytes@.len() + 1,
            skip_string(bytes@, *old(pos) as int) == string_end(bytes@, *pos as int, quote),
        ensures
            skip_string(bytes@, *old(pos) as int) == *pos as int,
        decreases bytes@.len() + 2 - *pos,
    {
        if bytes[*pos] == 0x5Cu8 {
            *pos += 2;
        } else if bytes[*pos] == quote {
            *pos += 1;
            return;
        } else {
            *pos += 1;
        }
    }
}

/// Skips a bracketed region that opens at `pos` (one bracket open after it).
fn skip_region(bytes: &[u8], pos: &mut usize, open: u8, close: u8, single_quotes: bool)
    requires
        bytes@.len() < usize::MAX,
        *old(pos) < bytes@.len(),
        open != 0x22u8,
        open != 0x27u8,
    ensures
        *final(pos) == balanced_end(bytes@, *old(pos) + 1, open, close, 1, single_quotes),
{
    let ghost target = balanced_end(bytes@, *old(pos) + 1, open, close, 1, single_quotes);
    let mut depth: usize = 1;
    *pos += 1;
    while *pos < bytes.len() && depth > 0
        invariant
            bytes@.len() < usize::MAX,
            *old(pos) < *pos <= bytes@.len() + 1,
            depth <= *pos - *old(pos),
            target == balanced_end(bytes@, *pos as int, open, close, depth as int, single_quotes),
        decreases bytes@.len() + 2 - *pos,
    {
        let c = bytes[*pos];
        if c == open {
            depth += 1;
        } else if c == close {
            depth -= 1;
        } else if c == 0x22u8 || (single_quotes && c == 0x27u8) {
            proof {
                lemma_string_end_bounds(bytes@, *pos + 1, c);
            }
            skip_string_at(bytes, pos);
            continue;
        }
        *pos += 1;
    }
}

/// Skips the argument list whose `(` is at `pos`.
pub fn skip_balanced(bytes: &[u8], pos: &mut usize)
    requires
        bytes@.len() < usize::MAX,
        *old(pos) < bytes@.len(),
    ensures
        *final(pos) == skip_args(bytes@, *old(pos) as int),
{
    skip_region(bytes, pos, 0x28u8, 0x29u8, false);
}

/// Skips the selection set whose `{` is at `pos` without analysing it.
pub fn skip_balanced_with_nesting(bytes: &[u8], pos: &mut usize)
    requires
        bytes@.len() < usize::MAX,
        *old(pos) < bytes@.len(),
    ensures
        *final(pos) == skip_braces(bytes@, *old(pos) as int),
{
    skip_region(bytes, pos, 0x7Bu8, 0x7Du8, true);
}

/// Skips whitespace and then any number of directives, each followed by
/// whitespace.
pub fn skip_directives_at(bytes: &[u8], pos: &mut usize)
    requires
        bytes@.len() < usize::MAX,
        *old(pos) <= bytes@.len() + 1,
    ensures
        *final(pos) == skip_directives(bytes@, *old(pos) as int),
        *final(pos) <= bytes@.len() + 1,
{
    let ghost p0 = *pos as int;
    proof {
        lemma_skip_directives_bounds(bytes@, p0);
    }
    while *pos < bytes.len() && bytes[*pos] == 0x40u8
        invariant
            bytes@.len() < usize::MAX,
            *pos <= bytes@.len() + 1,
            skip_directives(bytes@, p0) == skip_directives(bytes@, *pos as int),
        decreases bytes@.len() + 2 - *pos,
    {
        let ghost before = *pos as int;
        proof {
            lemma_word_end_bounds(bytes@, before + 1);
            lemma_skip_ws_from_bounds(bytes@, word_end(bytes@, before + 1), false);
        }
        skip_word_at(bytes, pos);
        skip_whitespace_and_comments(bytes, pos);
    }
}

/// Compares `kw.len()` bytes at `q` with `kw`, ignoring ASCII case.
fn eq_ignore_ascii_case_at(bytes: &[u8], q: usize, kw: &[u8]) -> (r: bool)
    requires
        q + kw@.len() <= bytes@.len(),
        bytes@.len() < usize::MAX,
    ensures
        r == matches_ignore_case(bytes@, q as int, kw@),
{
    let mut i: usize = 0;
    while i < kw.len()
        invariant
            q + kw@.len() <= bytes@.len(),
            bytes@.len() < usize::MAX,
            i <= kw@.len(),
            forall|j: int| 0 <= j < i ==> #[trigger] lower(bytes@[q + j]) == lower(kw@[j]),
        decreases kw@.len() - i,
    {
        if lower_byte(bytes[q + i]) != lower_byte(kw[i]) {
            assert(lower(bytes@[q + i as int]) != lower(kw@[i as int]));
            return false;
        }
        i += 1;
    }
    true
}

/// Consumes the keyword `kw` (after whitespace, ignoring case) when it stands
/// at `pos` as a whole word; otherwise leaves `pos` unchanged.
pub fn consume_keyword_at(bytes: &[u8], pos: &mut usize, kw: &[u8]) -> (r: bool)
    requires
        bytes@.len() < usize::MAX,
    ensures
        r == keyword_at(bytes@, *old(pos) as int, kw@),
        *final(pos) == consume_keyword(bytes@, *old(pos) as int, kw@),
{
    let saved = *pos;
    skip_whitespace_and_comments(bytes, pos);
    let q = *pos;
    if q <= bytes.len() && kw.len() <= bytes.len() - q && eq_ignore_ascii_case_at(bytes, q, kw) {
        let after = q + kw.len();
        if after >= bytes.len() || is_ws_byte(bytes[after]) || bytes[after] == 0x7Bu8
            || bytes[after] == 0x28u8 {
            *pos = after;
            return true;
        }
    }
    *pos = saved;
    false
}

/// Consumes a name that starts with a letter (after whitespace) and returns
/// its extent; returns `None` and leaves `pos` unchanged otherwise.
pub fn peek_keyword(bytes: &[u8], pos: &mut usize) -> (r: Option<(usize, usize)>)
    requires
        bytes@.len() < usize::MAX,
    ensures
        ({
            let q = skip_ws(bytes@, *old(pos) as int);
            if q < bytes@.len() && is_alpha(bytes@[q]) {
                r == Some((q as usize, consume_name(bytes@, q) as usize))
                    && *final(pos) == consume_name(bytes@, q)
            } else {
                r is None && *final(pos) == *old(pos)
            }
        }),
{
    let saved = *pos;
    skip_whitespace_and_comments(bytes, pos);
    let ghost q = *pos as int;
    if *pos < bytes.len() && is_alpha_byte(bytes[*pos]) {
        let range = consume_name_range(bytes, pos);
        proof {
            lemma_skip_ws_idempotent(bytes@, *old(pos) as int);
        }
        Some(range)
    } else {
        *pos = saved;
        None
    }
}

/// Skipping whitespace twice is the same as skipping it once.
pub proof fn lemma_skip_ws_idempotent(b: Seq<u8>, p: int)
    requires
        0 <= p,
    ensures
        skip_ws(b, skip_ws(b, p)) == skip_ws(b, p),
    decreases b.len() - p,
{
    lemma_skip_ws_end(b, p, false);
}

proof fn lemma_skip_ws_end(b: Seq<u8>, p: int, c: bool)
    requires
        0 <= p,
    ensures
        ({
            let q = skip_ws_from(b, p, c);
            q >= b.len() || (!is_ws(b[q]) && b[q] != 0x23u8)
        }),
    decreases b.len() - p,
{
    if p < 0 || p >= b.len() {
    } else if c {
        if b[p] == 0x0Au8 {
            lemma_skip_ws_end(b, p + 1, false);
        } else {
            lemma_skip_ws_end(b, p + 1, true);
        }
    } else if is_ws(b[p]) {
        lemma_skip_ws_end(b, p + 1, false);
    } else if b[p] == 0x23u8 {
        lemma_skip_ws_end(b, p + 1, true);
    }
}

/// Skips whitespace and one expected byte; `Err(q)` reports the position
/// where the expected byte was missing.
pub fn expect_byte(bytes: &[u8], pos: &mut usize, expected: u8) -> (r: Result<(), usize>)
    requires
        bytes@.len() < usize::MAX,
    ensures
        ({
            let q = skip_ws(bytes@, *old(pos) as int);
            if q < bytes@.len() && bytes@[q] == expected {
                r is Ok && *final(pos) == q + 1
            } else {
                r == Err::<(), usize>(q as usize) && *final(pos) == q
            }
        }),
{
    skip_whitespace_and_comments(bytes, pos);
    if *pos >= bytes.len() || bytes[*pos] != expected {
        return Err(*pos);
    }
    *pos += 1;
    Ok(())
}

} // verus!
