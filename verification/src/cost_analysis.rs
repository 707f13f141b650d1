//! Static cost analysis of GraphQL query text.
//!
//! The analyzer walks the selection-set structure of a query without schema
//! access. Cost model: scalar and object fields cost 2, list entry points
//! (`articles`, `search`, `prices`, and names containing `connection` or
//! ending in `list`) cost 5, `edges` 3, `node` 1, introspection fields 0,
//! fragment spreads and inline fragments 2; a nested selection adds the cost
//! of its children. A field is costed by its name, not by an alias it is
//! given. A comma between the selections of a set is skipped (there the
//! scan would otherwise make no progress). Queries deeper than `max_depth` or dearer than `max_cost` are
//! rejected; the depth reported is the full nesting depth, a leaf field
//! counting one level below its selection set. Per-field costs can be
//! overridden.
use vstd::prelude::*;
use vstd::string::StringExecFns;
use vstd::string::StringSliceAdditionalSpecFns;
use vstd::utf8::encode_utf8;

use crate::query_lexer::{
    consume_keyword, consume_keyword_at, consume_name, consume_name_range, expect_byte,
    is_alnum, is_alnum_byte, is_alpha, keyword_at, lemma_balanced_end_bounds,
    lemma_name_end_bounds, lemma_skip_directives_bounds, lemma_skip_ws_from_bounds,
    lemma_skip_ws_idempotent, lemma_word_end_bounds, lower, lower_byte, peek_keyword, skip_args,
    skip_balanced, skip_balanced_with_nesting, skip_braces, skip_directives, skip_directives_at,
    skip_whitespace_and_comments, skip_word, skip_word_at, skip_ws,
};
use crate::text::{decimal, message_with_position};

verus! {

// ---------------------------------------------------------------------------
// Types
// ---------------------------------------------------------------------------

/// Why a query was rejected.
pub enum CostError {
    TooExpensive { cost: u32, max: u32 },
    TooDeep { depth: u32, max: u32 },
    ParseError(String),
}

impl CostError {
    /// The error's message.
    pub fn message(&self) -> (r: String)
        ensures
            r@ == match *self {
                CostError::TooExpensive { cost, max } => "query cost "@ + decimal(cost as nat)
                    + " exceeds max "@ + decimal(max as nat),
                CostError::TooDeep { depth, max } => "query depth "@ + decimal(depth as nat)
                    + " exceeds max "@ + decimal(max as nat),
                CostError::ParseError(m) => "parse error: "@ + m@,
            },
    {
        match self {
            CostError::TooExpensive { cost, max } => {
                let mut s = message_with_position("query cost ", *cost as usize);
                s.append(" exceeds max ");
                let limit = message_with_position("", *max as usize);
                s.append(limit.as_str());
                proof {
                    reveal_strlit("");
                    assert(limit@ =~= decimal(*max as nat));
                }
                s
            },
            CostError::TooDeep { depth, max } => {
                let mut s = message_with_position("query depth ", *depth as usize);
                s.append(" exceeds max ");
                let limit = message_with_position("", *max as usize);
                s.append(limit.as_str());
                proof {
                    reveal_strlit("");
                    assert(limit@ =~= decimal(*max as nat));
                }
                s
            },
            CostError::ParseError(m) => {
                let mut s = "parse error: ".to_owned();
                s.append(m.as_str());
                s
            },
        }
    }
}

/// Limits and cost overrides. `field_costs` maps field names to costs; when
/// a name occurs more than once the first entry applies.
pub struct CostConfig {
    pub max_cost: u32,
    pub max_depth: u32,
    pub field_costs: Option<Vec<(String, u32)>>,
}

fn default_max_cost() -> (r: u32)
    ensures
        r == 100,
{
    100
}

fn default_max_depth() -> (r: u32)
    ensures
        r == 10,
{
    10
}

impl Default for CostConfig {
    fn default() -> (r: Self)
        ensures
            r.max_cost == 100,
            r.max_depth == 10,
            r.field_costs is None,
    {
        CostConfig { max_cost: default_max_cost(), max_depth: default_max_depth(), field_costs: None }
    }
}

pub struct CostAnalyzer {
    config: CostConfig,
}

// ---------------------------------------------------------------------------
// Keywords and field names the analyzer recognises
// ---------------------------------------------------------------------------

/// The bytes of `fragment`.
pub open spec fn kw_fragment() -> Seq<u8> {
    seq![0x66u8, 0x72u8, 0x61u8, 0x67u8, 0x6Du8, 0x65u8, 0x6Eu8, 0x74u8]
}

fn kw_fragment_bytes() -> (v: Vec<u8>)
    ensures
        v@ == kw_fragment(),
{
    vec![0x66u8, 0x72u8, 0x61u8, 0x67u8, 0x6Du8, 0x65u8, 0x6Eu8, 0x74u8]
}

/// The bytes of `on`.
pub open spec fn kw_on() -> Seq<u8> {
    seq![0x6Fu8, 0x6Eu8]
}

fn kw_on_bytes() -> (v: Vec<u8>)
    ensures
        v@ == kw_on(),
{
    vec![0x6Fu8, 0x6Eu8]
}

/// The bytes of `query`.
pub open spec fn kw_query() -> Seq<u8> {
    seq![0x71u8, 0x75u8, 0x65u8, 0x72u8, 0x79u8]
}

fn kw_query_bytes() -> (v: Vec<u8>)
    ensures
        v@ == kw_query(),
{
    vec![0x71u8, 0x75u8, 0x65u8, 0x72u8, 0x79u8]
}

/// The bytes of `mutation`.
pub open spec fn kw_mutation() -> Seq<u8> {
    seq![0x6Du8, 0x75u8, 0x74u8, 0x61u8, 0x74u8, 0x69u8, 0x6Fu8, 0x6Eu8]
}

fn kw_mutation_bytes() -> (v: Vec<u8>)
    ensures
        v@ == kw_mutation(),
{
    vec![0x6Du8, 0x75u8, 0x74u8, 0x61u8, 0x74u8, 0x69u8, 0x6Fu8, 0x6Eu8]
}

/// The bytes of `subscription`.
pub open spec fn kw_subscription() -> Seq<u8> {
    seq![0x73u8, 0x75u8, 0x62u8, 0x73u8, 0x63u8, 0x72u8, 0x69u8, 0x70u8, 0x74u8, 0x69u8, 0x6Fu8, 0x6Eu8]
}

fn kw_subscription_bytes() -> (v: Vec<u8>)
    ensures
        v@ == kw_subscription(),
{
    vec![0x73u8, 0x75u8, 0x62u8, 0x73u8, 0x63u8, 0x72u8, 0x69u8, 0x70u8, 0x74u8, 0x69u8, 0x6Fu8, 0x6Eu8]
}

/// The bytes of `articles`.
pub open spec fn kw_articles() -> Seq<u8> {
    seq![0x61u8, 0x72u8, 0x74u8, 0x69u8, 0x63u8, 0x6Cu8, 0x65u8, 0x73u8]
}

fn kw_articles_bytes() -> (v: Vec<u8>)
    ensures
        v@ == kw_articles(),
{
    vec![0x61u8, 0x72u8, 0x74u8, 0x69u8, 0x63u8, 0x6Cu8, 0x65u8, 0x73u8]
}

/// The bytes of `search`.
pub open spec fn kw_search() -> Seq<u8> {
    seq![0x73u8, 0x65u8, 0x61u8, 0x72u8, 0x63u8, 0x68u8]
}

fn kw_search_bytes() -> (v: Vec<u8>)
    ensures
        v@ == kw_search(),
{
    vec![0x73u8, 0x65u8, 0x61u8, 0x72u8, 0x63u8, 0x68u8]
}

/// The bytes of `prices`.
pub open spec fn kw_prices() -> Seq<u8> {
    seq![0x70u8, 0x72u8, 0x69u8, 0x63u8, 0x65u8, 0x73u8]
}

fn kw_prices_bytes() -> (v: Vec<u8>)
    ensures
        v@ == kw_prices(),
{
    vec![0x70u8, 0x72u8, 0x69u8, 0x63u8, 0x65u8, 0x73u8]
}

/// The bytes of `edges`.
pub open spec fn kw_edges() -> Seq<u8> {
    seq![0x65u8, 0x64u8, 0x67u8, 0x65u8, 0x73u8]
}

fn kw_edges_bytes() -> (v: Vec<u8>)
    ensures
        v@ == kw_edges(),
{
    vec![0x65u8, 0x64u8, 0x67u8, 0x65u8, 0x73u8]
}

/// The bytes of `node`.
pub open spec fn kw_node() -> Seq<u8> {
    seq![0x6Eu8, 0x6Fu8, 0x64u8, 0x65u8]
}

fn kw_node_bytes() -> (v: Vec<u8>)
    ensures
        v@ == kw_node(),
{
    vec![0x6Eu8, 0x6Fu8, 0x64u8, 0x65u8]
}

/// The bytes of `__schema`.
pub open spec fn kw_schema() -> Seq<u8> {
    seq![0x5Fu8, 0x5Fu8, 0x73u8, 0x63u8, 0x68u8, 0x65u8, 0x6Du8, 0x61u8]
}

fn kw_schema_bytes() -> (v: Vec<u8>)
    ensures
        v@ == kw_schema(),
{
    vec![0x5Fu8, 0x5Fu8, 0x73u8, 0x63u8, 0x68u8, 0x65u8, 0x6Du8, 0x61u8]
}

/// The bytes of `__type`.
pub open spec fn kw_type() -> Seq<u8> {
    seq![0x5Fu8, 0x5Fu8, 0x74u8, 0x79u8, 0x70u8, 0x65u8]
}

fn kw_type_bytes() -> (v: Vec<u8>)
    ensures
        v@ == kw_type(),
{
    vec![0x5Fu8, 0x5Fu8, 0x74u8, 0x79u8, 0x70u8, 0x65u8]
}

/// The bytes of `__typename`.
pub open spec fn kw_typename() -> Seq<u8> {
    seq![0x5Fu8, 0x5Fu8, 0x74u8, 0x79u8, 0x70u8, 0x65u8, 0x6Eu8, 0x61u8, 0x6Du8, 0x65u8]
}

fn kw_typename_bytes() -> (v: Vec<u8>)
    ensures
        v@ == kw_typename(),
{
    vec![0x5Fu8, 0x5Fu8, 0x74u8, 0x79u8, 0x70u8, 0x65u8, 0x6Eu8, 0x61u8, 0x6Du8, 0x65u8]
}

/// The bytes of `connection`.
pub open spec fn kw_connection() -> Seq<u8> {
    seq![0x63u8, 0x6Fu8, 0x6Eu8, 0x6Eu8, 0x65u8, 0x63u8, 0x74u8, 0x69u8, 0x6Fu8, 0x6Eu8]
}

fn kw_connection_bytes() -> (v: Vec<u8>)
    ensures
        v@ == kw_connection(),
{
    vec![0x63u8, 0x6Fu8, 0x6Eu8, 0x6Eu8, 0x65u8, 0x63u8, 0x74u8, 0x69u8, 0x6Fu8, 0x6Eu8]
}

/// The bytes of `list`.
pub open spec fn kw_list() -> Seq<u8> {
    seq![0x6Cu8, 0x69u8, 0x73u8, 0x74u8]
}

fn kw_list_bytes() -> (v: Vec<u8>)
    ensures
        v@ == kw_list(),
{
    vec![0x6Cu8, 0x69u8, 0x73u8, 0x74u8]
}

// ---------------------------------------------------------------------------
// Cost model
// ---------------------------------------------------------------------------

/// Saturation at `u32::MAX`.
pub open spec fn sat(x: int) -> int {
    if x > u32::MAX {
        u32::MAX as int
    } else {
        x
    }
}

pub open spec fn lower_seq(s: Seq<u8>) -> Seq<u8> {
    s.map_values(|c: u8| lower(c))
}

pub open spec fn contains_seq(s: Seq<u8>, t: Seq<u8>) -> bool {
    exists|i: int| 0 <= i && i + t.len() <= s.len() && #[trigger] s.subrange(i, i + t.len()) == t
}

pub open spec fn ends_with_seq(s: Seq<u8>, t: Seq<u8>) -> bool {
    t.len() <= s.len() && s.subrange(s.len() - t.len(), s.len() as int) == t
}

/// Built-in cost of a field with the given name.
pub open spec fn builtin_cost(name: Seq<u8>) -> int {
    if name == kw_articles() || name == kw_search() || name == kw_prices() {
        5
    } else if name == kw_edges() {
        3
    } else if name == kw_node() {
        1
    } else if name == kw_schema() || name == kw_type() || name == kw_typename() {
        0
    } else if contains_seq(lower_seq(name), kw_connection()) || ends_with_seq(
        lower_seq(name),
        kw_list(),
    ) {
        5
    } else {
        2
    }
}

/// The first override whose name (as UTF-8 bytes) equals `name`.
pub open spec fn custom_cost(entries: Seq<(String, u32)>, name: Seq<u8>) -> Option<u32>
    decreases entries.len(),
{
    if entries.len() == 0 {
        None
    } else if encode_utf8(entries[0].0@) == name {
        Some(entries[0].1)
    } else {
        custom_cost(entries.drop_first(), name)
    }
}

pub open spec fn field_cost(cfg: CostConfig, name: Seq<u8>) -> int {
    match cfg.field_costs {
        Some(v) => match custom_cost(v@, name) {
            Some(c) => c as int,
            None => builtin_cost(name),
        },
        None => builtin_cost(name),
    }
}

// ---------------------------------------------------------------------------
// Grammar-level scans
// ---------------------------------------------------------------------------

/// `...` stands at `q`.
pub open spec fn is_spread_at(b: Seq<u8>, q: int) -> bool {
    0 <= q && q + 2 < b.len() && b[q] == 0x2Eu8 && b[q + 1] == 0x2Eu8 && b[q + 2] == 0x2Eu8
}

/// After the `...` at `q`, the word `on` follows (an inline fragment).
pub open spec fn is_inline_fragment(b: Seq<u8>, q: int) -> bool {
    let probe = skip_ws(b, q + 3);
    probe + 2 < b.len() && b[probe] == 0x6Fu8 && b[probe + 1] == 0x6Eu8 && !is_alnum(
        b[probe + 2],
    )
}

/// Position after `... on Type @dir` (before its selection set).
pub open spec fn inline_header_end(b: Seq<u8>, q: int) -> int {
    let r = skip_ws(b, q + 3);
    let r1 = skip_ws(b, consume_keyword(b, r, kw_on()));
    let r2 = skip_ws(b, consume_name(b, r1));
    if r2 < b.len() && b[r2] == 0x40u8 {
        skip_word(b, r2)
    } else {
        r2
    }
}

/// Position after `...name @dir`.
pub open spec fn spread_end(b: Seq<u8>, q: int) -> int {
    let r = skip_ws(b, q + 3);
    let r1 = skip_ws(b, consume_name(b, r));
    if r1 < b.len() && b[r1] == 0x40u8 {
        skip_word(b, r1)
    } else {
        r1
    }
}

/// Position after a field's name, alias, arguments and directives.
/// A field at `q` written as `alias: name`.
pub open spec fn has_alias(b: Seq<u8>, q: int) -> bool {
    let r1 = skip_ws(b, consume_name(b, q));
    r1 < b.len() && b[r1] == 0x3Au8
}

/// Start of the name of the field at `q`: the name after `alias:` where the
/// field has an alias, its first name otherwise.
pub open spec fn field_name_start(b: Seq<u8>, q: int) -> int {
    if has_alias(b, q) {
        skip_ws(b, skip_ws(b, consume_name(b, q)) + 1)
    } else {
        skip_ws(b, q)
    }
}

/// End of the name of the field at `q` (see `field_name_start`).
pub open spec fn field_name_end(b: Seq<u8>, q: int) -> int {
    if has_alias(b, q) {
        consume_name(b, skip_ws(b, consume_name(b, q)) + 1)
    } else {
        consume_name(b, q)
    }
}

pub open spec fn field_header_end(b: Seq<u8>, q: int) -> int {
    let r1 = skip_ws(b, consume_name(b, q));
    let r2 = if r1 < b.len() && b[r1] == 0x3Au8 {
        consume_name(b, r1 + 1)
    } else {
        r1
    };
    let r3 = skip_ws(b, r2);
    let r4 = if r3 < b.len() && b[r3] == 0x28u8 {
        skip_args(b, r3)
    } else {
        r3
    };
    skip_ws(b, skip_directives(b, skip_ws(b, r4)))
}

/// A fragment definition (`fragment Name on Type @dir { ... }`) starts at `p`.
pub open spec fn is_fragment_def(b: Seq<u8>, p: int) -> bool {
    keyword_at(b, skip_ws(b, p), kw_fragment())
}

/// Position after the fragment definition that starts at `p`.
pub open spec fn fragment_def_end(b: Seq<u8>, p: int) -> int {
    let q = skip_ws(b, p);
    let r1 = skip_ws(b, consume_keyword(b, q, kw_fragment()));
    let r2 = skip_ws(b, consume_name(b, r1));
    let r3 = skip_ws(b, consume_keyword(b, r2, kw_on()));
    let r4 = skip_ws(b, consume_name(b, r3));
    let r5 = skip_directives(b, r4);
    if r5 < b.len() && b[r5] == 0x7Bu8 {
        skip_braces(b, r5)
    } else {
        r5
    }
}

/// Position after any run of fragment definitions (whitespace after each).
pub open spec fn skip_fragments(b: Seq<u8>, p: int) -> int
    decreases b.len() + 2 - p,
{
    if 0 <= p <= b.len() + 1 && is_fragment_def(b, p) {
        proof {
            lemma_fragment_def_bounds(b, p);
        }
        skip_fragments(b, skip_ws(b, fragment_def_end(b, p)))
    } else {
        p
    }
}

/// `query`, `mutation` or `subscription`.
pub open spec fn is_operation_keyword(name: Seq<u8>) -> bool {
    name == kw_query() || name == kw_mutation() || name == kw_subscription()
}

/// Position before the selection set of the first operation, whose keyword
/// `kw` ends at `p`: optional name, variables and directives are skipped.
pub open spec fn first_header_end(b: Seq<u8>, p: int, kw: Seq<u8>) -> int {
    let r1 = consume_keyword(b, p, kw);
    let r2 = skip_ws(b, r1);
    let r3 = if r2 < b.len() && is_alnum(b[r2]) {
        consume_name(b, r2)
    } else {
        r1
    };
    let r4 = skip_ws(b, r3);
    let r5 = if r4 < b.len() && b[r4] == 0x28u8 {
        skip_args(b, r4)
    } else {
        r4
    };
    skip_directives(b, skip_ws(b, r5))
}

/// Position before the selection set of a later operation (no directives).
pub open spec fn later_header_end(b: Seq<u8>, p: int, kw: Seq<u8>) -> int {
    let r1 = consume_keyword(b, p, kw);
    let r2 = skip_ws(b, r1);
    let r3 = if r2 < b.len() && is_alnum(b[r2]) {
        consume_name(b, r2)
    } else {
        r2
    };
    let r4 = skip_ws(b, r3);
    if r4 < b.len() && b[r4] == 0x28u8 {
        skip_args(b, r4)
    } else {
        r4
    }
}

// ---------------------------------------------------------------------------
// Analysis
// ---------------------------------------------------------------------------

/// How a scan failed.
pub enum ScanFault {
    /// Input ended inside a selection set.
    Unterminated,
    /// A selection set was expected at this position.
    ExpectedBrace(int),
    /// A selection at this position consumes no input; the analysis could
    /// never advance past it.
    NoProgress(int),
}

/// Result of scanning: total cost, maximum depth and end position, or a fault.
pub enum Scan {
    Done(int, int, int),
    Fault(ScanFault),
}

/// The selection set that starts (after whitespace) at `p`, nested at `depth`.
#[verifier::opaque]
pub open spec fn sel_set(cfg: CostConfig, b: Seq<u8>, p: int, depth: int) -> Scan
    decreases b.len() + 2 - p, 0int,
{
    let q = skip_ws(b, p);
    if 0 <= p <= b.len() + 1 && q < b.len() && b[q] == 0x7Bu8 {
        proof {
            lemma_skip_ws_from_bounds(b, p, false);
        }
        sel_items(cfg, b, q + 1, depth, 0, depth)
    } else {
        Scan::Fault(ScanFault::ExpectedBrace(q))
    }
}

/// The remaining selections of a set at `depth`, starting at `p`, with the
/// cost and depth accumulated so far.
pub open spec fn sel_items(
    cfg: CostConfig,
    b: Seq<u8>,
    p: int,
    depth: int,
    cost: int,
    maxd: int,
) -> Scan
    decreases b.len() + 2 - p, 1int,
{
    let q = skip_ws(b, p);
    if p < 0 || p > b.len() + 1 || q >= b.len() {
        Scan::Fault(ScanFault::Unterminated)
    } else if b[q] == 0x7Du8 {
        Scan::Done(cost, maxd, q + 1)
    } else if b[q] == 0x2Cu8 {
        proof {
            lemma_skip_ws_from_bounds(b, p, false);
        }
        sel_items(cfg, b, q + 1, depth, cost, maxd)
    } else if is_spread_at(b, q) {
        proof {
            lemma_skip_ws_from_bounds(b, p, false);
            lemma_spread_bounds(b, q);
        }
        if is_inline_fragment(b, q) {
            match sel_set(cfg, b, inline_header_end(b, q), depth + 1) {
                Scan::Fault(f) => Scan::Fault(f),
                Scan::Done(c, d, e) => if q < e <= b.len() + 1 {
                    sel_items(cfg, b, e, depth, cost + 2 + c, if d > maxd { d } else { maxd })
                } else {
                    Scan::Fault(ScanFault::NoProgress(q))
                },
            }
        } else {
            sel_items(cfg, b, spread_end(b, q), depth, cost + 2, maxd)
        }
    } else {
        proof {
            lemma_skip_ws_from_bounds(b, p, false);
            lemma_field_header_bounds(b, q);
        }
        let name = b.subrange(field_name_start(b, q), field_name_end(b, q));
        let r = field_header_end(b, q);
        if r < b.len() && b[r] == 0x7Bu8 {
            match sel_set(cfg, b, r, depth + 1) {
                Scan::Fault(f) => Scan::Fault(f),
                Scan::Done(c, d, e) => if q < e <= b.len() + 1 {
                    sel_items(
                        cfg,
                        b,
                        e,
                        depth,
                        cost + field_cost(cfg, name) + c,
                        if d > maxd { d } else { maxd },
                    )
                } else {
                    Scan::Fault(ScanFault::NoProgress(q))
                },
            }
        } else if r > q {
            sel_items(
                cfg,
                b,
                r,
                depth,
                cost + field_cost(cfg, name),
                if depth + 1 > maxd { depth + 1 } else { maxd },
            )
        } else {
            Scan::Fault(ScanFault::NoProgress(q))
        }
    }
}

/// The first operation of the document, looked for at `p`: a bare selection
/// set, or one introduced by an operation keyword. Any other leading name is
/// passed over.
pub open spec fn first_operation(cfg: CostConfig, b: Seq<u8>, p: int) -> Scan {
    if p < b.len() {
        if b[p] == 0x7Bu8 {
            sel_set(cfg, b, p, 1)
        } else {
            let q = skip_ws(b, p);
            if q < b.len() && is_alpha(b[q]) {
                let e = consume_name(b, q);
                let name = b.subrange(q, e);
                if is_operation_keyword(name) {
                    sel_set(cfg, b, first_header_end(b, e, name), 1)
                } else {
                    Scan::Done(0, 0, e)
                }
            } else {
                Scan::Done(0, 0, p)
            }
        }
    } else {
        Scan::Done(0, 0, p)
    }
}

/// Where the next operation's selection set starts, looked for at `p`
/// (fragments and whitespace already skipped): a bare selection set or an
/// operation keyword with its header; `None` ends the document's analysis.
pub open spec fn next_operation_start(b: Seq<u8>, p: int) -> Option<int> {
    let q = skip_ws(b, p);
    let e = consume_name(b, q);
    if p < 0 || p >= b.len() {
        None
    } else if b[p] == 0x7Bu8 {
        Some(p)
    } else if q < b.len() && is_alpha(b[q]) && is_operation_keyword(b.subrange(q, e)) {
        Some(later_header_end(b, e, b.subrange(q, e)))
    } else {
        None
    }
}

/// The operations after the first one, from `p` on.
pub open spec fn later_operations(cfg: CostConfig, b: Seq<u8>, p: int, cost: int, maxd: int) -> Scan
    decreases b.len() + 2 - p,
{
    if p < 0 || p > b.len() + 1 {
        Scan::Done(cost, maxd, p)
    } else {
        let p2 = skip_ws(b, skip_fragments(b, p));
        proof {
            lemma_skip_fragments_bounds(b, p);
            lemma_skip_ws_from_bounds(b, skip_fragments(b, p), false);
        }
        match next_operation_start(b, p2) {
            None => Scan::Done(cost, maxd, p2),
            Some(s) => match sel_set(cfg, b, s, 1) {
                Scan::Fault(f) => Scan::Fault(f),
                Scan::Done(c, d, e) => if p2 < e <= b.len() + 1 {
                    later_operations(cfg, b, e, cost + c, if d > maxd { d } else { maxd })
                } else {
                    Scan::Fault(ScanFault::NoProgress(p2))
                },
            },
        }
    }
}

/// Scan of a whole query: leading fragment definitions, the first
/// operation, then further operations and fragment definitions.
pub open spec fn analysis(cfg: CostConfig, b: Seq<u8>) -> Scan {
    let p = skip_ws(b, skip_fragments(b, 0));
    match first_operation(cfg, b, p) {
        Scan::Fault(f) => Scan::Fault(f),
        Scan::Done(c, d, e) => later_operations(cfg, b, e, c, d),
    }
}

/// Message of the parse error reported for a fault.
pub open spec fn fault_message(f: ScanFault) -> Seq<char> {
    match f {
        ScanFault::Unterminated => "unterminated selection set"@,
        ScanFault::ExpectedBrace(q) => "expected '{' at position "@ + decimal(q as nat),
        ScanFault::NoProgress(q) => "unexpected token at position "@ + decimal(q as nat),
    }
}

/// The verdict of `analyze` on query bytes `b`.
pub open spec fn verdict(cfg: CostConfig, b: Seq<u8>, r: Result<u32, CostError>) -> bool {
    match analysis(cfg, b) {
        Scan::Fault(f) => r matches Err(CostError::ParseError(m)) && m@ == fault_message(f),
        Scan::Done(cost, depth, _) => if sat(depth) > cfg.max_depth {
            r == Err::<u32, CostError>(
                CostError::TooDeep { depth: sat(depth) as u32, max: cfg.max_depth },
            )
        } else if sat(cost) > cfg.max_cost {
            r == Err::<u32, CostError>(
                CostError::TooExpensive { cost: sat(cost) as u32, max: cfg.max_cost },
            )
        } else {
            r == Ok::<u32, CostError>(sat(cost) as u32)
        },
    }
}

proof fn lemma_sel_set_cost(cfg: CostConfig, b: Seq<u8>, p: int, depth: int)
    ensures
        sel_set(cfg, b, p, depth) matches Scan::Done(c, _, _) ==> c >= 0,
    decreases b.len() + 2 - p, 0int,
{
    reveal(sel_set);
    let q = skip_ws(b, p);
    if 0 <= p <= b.len() + 1 && q < b.len() && b[q] == 0x7Bu8 {
        lemma_skip_ws_from_bounds(b, p, false);
        lemma_sel_items_cost(cfg, b, q + 1, depth, 0, depth);
    }
}

proof fn lemma_sel_items_cost(cfg: CostConfig, b: Seq<u8>, p: int, depth: int, cost: int, maxd: int)
    requires
        cost >= 0,
    ensures
        sel_items(cfg, b, p, depth, cost, maxd) matches Scan::Done(c, _, _) ==> c >= cost,
    decreases b.len() + 2 - p, 1int,
{
    reveal(sel_set);
    let q = skip_ws(b, p);
    if p < 0 || p > b.len() + 1 || q >= b.len() {
    } else if b[q] == 0x7Du8 {
    } else if b[q] == 0x2Cu8 {
        lemma_skip_ws_from_bounds(b, p, false);
        lemma_sel_items_cost(cfg, b, q + 1, depth, cost, maxd);
    } else if is_spread_at(b, q) {
        lemma_skip_ws_from_bounds(b, p, false);
        lemma_spread_bounds(b, q);
        if is_inline_fragment(b, q) {
            lemma_sel_set_cost(cfg, b, inline_header_end(b, q), depth + 1);
            match sel_set(cfg, b, inline_header_end(b, q), depth + 1) {
                Scan::Fault(f) => {},
                Scan::Done(c, d, e) => if q < e <= b.len() + 1 {
                    lemma_sel_items_cost(cfg, b, e, depth, cost + 2 + c, if d > maxd { d } else { maxd });
                },
            }
        } else {
            lemma_sel_items_cost(cfg, b, spread_end(b, q), depth, cost + 2, maxd);
        }
    } else {
        lemma_skip_ws_from_bounds(b, p, false);
        lemma_field_header_bounds(b, q);
        let name = b.subrange(field_name_start(b, q), field_name_end(b, q));
        let r = field_header_end(b, q);
        if r < b.len() && b[r] == 0x7Bu8 {
            lemma_sel_set_cost(cfg, b, r, depth + 1);
            match sel_set(cfg, b, r, depth + 1) {
                Scan::Fault(f) => {},
                Scan::Done(c, d, e) => if q < e <= b.len() + 1 {
                    lemma_sel_items_cost(
                        cfg,
                        b,
                        e,
                        depth,
                        cost + field_cost(cfg, name) + c,
                        if d > maxd { d } else { maxd },
                    );
                },
            }
        } else if r > q {
            lemma_sel_items_cost(
                cfg,
                b,
                r,
                depth,
                cost + field_cost(cfg, name),
                if depth + 1 > maxd { depth + 1 } else { maxd },
            );
        }
    }
}

/// The depth a completed scan of a selection set's remaining items reports
/// is never below the depth accumulated before them.
pub proof fn lemma_sel_items_depth_grows(cfg: CostConfig, b: Seq<u8>, p: int, depth: int, cost: int, maxd: int)
    ensures
        sel_items(cfg, b, p, depth, cost, maxd) matches Scan::Done(_, d, _) ==> d >= maxd,
    decreases b.len() + 2 - p, 1int,
{
    reveal(sel_set);
    let q = skip_ws(b, p);
    if p < 0 || p > b.len() + 1 || q >= b.len() {
    } else if b[q] == 0x7Du8 {
    } else if b[q] == 0x2Cu8 {
        lemma_skip_ws_from_bounds(b, p, false);
        lemma_sel_items_depth_grows(cfg, b, q + 1, depth, cost, maxd);
    } else if is_spread_at(b, q) {
        lemma_skip_ws_from_bounds(b, p, false);
        lemma_spread_bounds(b, q);
        if is_inline_fragment(b, q) {
            match sel_set(cfg, b, inline_header_end(b, q), depth + 1) {
                Scan::Fault(f) => {},
                Scan::Done(c, d, e) => if q < e <= b.len() + 1 {
                    lemma_sel_items_depth_grows(cfg, b, e, depth, cost + 2 + c, if d > maxd { d } else { maxd });
                },
            }
        } else {
            lemma_sel_items_depth_grows(cfg, b, spread_end(b, q), depth, cost + 2, maxd);
        }
    } else {
        lemma_skip_ws_from_bounds(b, p, false);
        lemma_field_header_bounds(b, q);
        let name = b.subrange(field_name_start(b, q), field_name_end(b, q));
        let r = field_header_end(b, q);
        if r < b.len() && b[r] == 0x7Bu8 {
            match sel_set(cfg, b, r, depth + 1) {
                Scan::Fault(f) => {},
                Scan::Done(c, d, e) => if q < e <= b.len() + 1 {
                    lemma_sel_items_depth_grows(
                        cfg,
                        b,
                        e,
                        depth,
                        cost + field_cost(cfg, name) + c,
                        if d > maxd { d } else { maxd },
                    );
                },
            }
        } else if r > q {
            lemma_sel_items_depth_grows(
                cfg,
                b,
                r,
                depth,
                cost + field_cost(cfg, name),
                if depth + 1 > maxd { depth + 1 } else { maxd },
            );
        }
    }
}

/// A completed selection set at `depth` is at least as deep as what its
/// next selection (the one that starts after white space at `p`) reaches:
/// a leaf field lies one level below the set; a field with a selection set,
/// and an inline fragment `... on T { }` alike, reach the depth of their
/// own nested set, which is opened one level below. So wrapping selections
/// in an inline fragment never lowers the depth reported.
pub proof fn lemma_nested_selections_count(cfg: CostConfig, b: Seq<u8>, p: int, depth: int, cost: int, maxd: int)
    requires
        0 <= p <= b.len(),
    ensures
        ({
            let q = skip_ws(b, p);
            sel_items(cfg, b, p, depth, cost, maxd) matches Scan::Done(_, d, _) ==> {
                &&& d >= maxd
                &&& (q < b.len() && is_spread_at(b, q) && is_inline_fragment(b, q) ==> (sel_set(
                    cfg,
                    b,
                    inline_header_end(b, q),
                    depth + 1,
                ) matches Scan::Done(_, d1, _) ==> d >= d1))
                &&& (q < b.len() && b[q] != 0x7Du8 && b[q] != 0x2Cu8 && !is_spread_at(b, q) ==> {
                    let r = field_header_end(b, q);
                    &&& (r < b.len() && b[r] == 0x7Bu8 ==> (sel_set(cfg, b, r, depth + 1) matches Scan::Done(
                        _,
                        d1,
                        _,
                    ) ==> d >= d1))
                    &&& (!(r < b.len() && b[r] == 0x7Bu8) ==> d >= depth + 1)
                })
            }
        }),
{
    reveal(sel_set);
    lemma_sel_items_depth_grows(cfg, b, p, depth, cost, maxd);
    let q = skip_ws(b, p);
    lemma_skip_ws_from_bounds(b, p, false);
    if q >= b.len() {
    } else if b[q] == 0x7Du8 {
    } else if b[q] == 0x2Cu8 {
    } else if is_spread_at(b, q) {
        lemma_spread_bounds(b, q);
        if is_inline_fragment(b, q) {
            match sel_set(cfg, b, inline_header_end(b, q), depth + 1) {
                Scan::Fault(f) => {},
                Scan::Done(c, d, e) => if q < e <= b.len() + 1 {
                    lemma_sel_items_depth_grows(cfg, b, e, depth, cost + 2 + c, if d > maxd { d } else { maxd });
                },
            }
        }
    } else {
        lemma_field_header_bounds(b, q);
        let name = b.subrange(field_name_start(b, q), field_name_end(b, q));
        let r = field_header_end(b, q);
        if r < b.len() && b[r] == 0x7Bu8 {
            match sel_set(cfg, b, r, depth + 1) {
                Scan::Fault(f) => {},
                Scan::Done(c, d, e) => if q < e <= b.len() + 1 {
                    lemma_sel_items_depth_grows(
                        cfg,
                        b,
                        e,
                        depth,
                        cost + field_cost(cfg, name) + c,
                        if d > maxd { d } else { maxd },
                    );
                },
            }
        } else if r > q {
            lemma_sel_items_depth_grows(
                cfg,
                b,
                r,
                depth,
                cost + field_cost(cfg, name),
                if depth + 1 > maxd { depth + 1 } else { maxd },
            );
        }
    }
}

proof fn lemma_later_operations_cost(cfg: CostConfig, b: Seq<u8>, p: int, cost: int, maxd: int)
    requires
        cost >= 0,
    ensures
        later_operations(cfg, b, p, cost, maxd) matches Scan::Done(c, _, _) ==> c >= cost,
    decreases b.len() + 2 - p,
{
    if 0 <= p <= b.len() + 1 {
        let p2 = skip_ws(b, skip_fragments(b, p));
        lemma_skip_fragments_bounds(b, p);
        lemma_skip_ws_from_bounds(b, skip_fragments(b, p), false);
        match next_operation_start(b, p2) {
            None => {},
            Some(st) => {
                lemma_sel_set_cost(cfg, b, st, 1);
                match sel_set(cfg, b, st, 1) {
                    Scan::Fault(f) => {},
                    Scan::Done(c, d, e) => if p2 < e <= b.len() + 1 {
                        lemma_later_operations_cost(cfg, b, e, cost + c, if d > maxd { d } else { maxd });
                    },
                }
            },
        }
    }
}

/// Every cost the analysis computes is non-negative.
proof fn lemma_analysis_cost(cfg: CostConfig, b: Seq<u8>)
    ensures
        analysis(cfg, b) matches Scan::Done(c, _, _) ==> c >= 0,
{
    let p = skip_ws(b, skip_fragments(b, 0));
    if p < b.len() {
        if b[p] == 0x7Bu8 {
            lemma_sel_set_cost(cfg, b, p, 1);
        } else {
            let q = skip_ws(b, p);
            if q < b.len() && is_alpha(b[q]) {
                let e = consume_name(b, q);
                let name = b.subrange(q, e);
                if is_operation_keyword(name) {
                    lemma_sel_set_cost(cfg, b, first_header_end(b, e, name), 1);
                }
            }
        }
    }
    match first_operation(cfg, b, p) {
        Scan::Fault(f) => {},
        Scan::Done(c, d, e) => {
            lemma_later_operations_cost(cfg, b, e, c, d);
        },
    }
}

proof fn lemma_sel_set_limits(c1: CostConfig, c2: CostConfig, b: Seq<u8>, p: int, depth: int)
    requires
        c1.field_costs == c2.field_costs,
    ensures
        sel_set(c1, b, p, depth) == sel_set(c2, b, p, depth),
    decreases b.len() + 2 - p, 0int,
{
    reveal(sel_set);
    let q = skip_ws(b, p);
    if 0 <= p <= b.len() + 1 && q < b.len() && b[q] == 0x7Bu8 {
        lemma_skip_ws_from_bounds(b, p, false);
        lemma_sel_items_limits(c1, c2, b, q + 1, depth, 0, depth);
    }
}

proof fn lemma_sel_items_limits(
    c1: CostConfig,
    c2: CostConfig,
    b: Seq<u8>,
    p: int,
    depth: int,
    cost: int,
    maxd: int,
)
    requires
        c1.field_costs == c2.field_costs,
    ensures
        sel_items(c1, b, p, depth, cost, maxd) == sel_items(c2, b, p, depth, cost, maxd),
    decreases b.len() + 2 - p, 1int,
{
    reveal(sel_set);
    let q = skip_ws(b, p);
    if p < 0 || p > b.len() + 1 || q >= b.len() {
    } else if b[q] == 0x7Du8 {
    } else if b[q] == 0x2Cu8 {
        lemma_skip_ws_from_bounds(b, p, false);
        lemma_sel_items_limits(c1, c2, b, q + 1, depth, cost, maxd);
    } else if is_spread_at(b, q) {
        lemma_skip_ws_from_bounds(b, p, false);
        lemma_spread_bounds(b, q);
        if is_inline_fragment(b, q) {
            lemma_sel_set_limits(c1, c2, b, inline_header_end(b, q), depth + 1);
            match sel_set(c1, b, inline_header_end(b, q), depth + 1) {
                Scan::Fault(f) => {},
                Scan::Done(c, d, e) => if q < e <= b.len() + 1 {
                    lemma_sel_items_limits(c1, c2, b, e, depth, cost + 2 + c, if d > maxd { d } else { maxd });
                },
            }
        } else {
            lemma_sel_items_limits(c1, c2, b, spread_end(b, q), depth, cost + 2, maxd);
        }
    } else {
        lemma_skip_ws_from_bounds(b, p, false);
        lemma_field_header_bounds(b, q);
        let name = b.subrange(field_name_start(b, q), field_name_end(b, q));
        let r = field_header_end(b, q);
        assert(field_cost(c1, name) == field_cost(c2, name));
        if r < b.len() && b[r] == 0x7Bu8 {
            lemma_sel_set_limits(c1, c2, b, r, depth + 1);
            match sel_set(c1, b, r, depth + 1) {
                Scan::Fault(f) => {},
                Scan::Done(c, d, e) => if q < e <= b.len() + 1 {
                    lemma_sel_items_limits(
                        c1,
                        c2,
                        b,
                        e,
                        depth,
                        cost + field_cost(c1, name) + c,
                        if d > maxd { d } else { maxd },
                    );
                },
            }
        } else if r > q {
            lemma_sel_items_limits(
                c1,
                c2,
                b,
                r,
                depth,
                cost + field_cost(c1, name),
                if depth + 1 > maxd { depth + 1 } else { maxd },
            );
        }
    }
}

proof fn lemma_later_operations_limits(c1: CostConfig, c2: CostConfig, b: Seq<u8>, p: int, cost: int, maxd: int)
    requires
        c1.field_costs == c2.field_costs,
    ensures
        later_operations(c1, b, p, cost, maxd) == later_operations(c2, b, p, cost, maxd),
    decreases b.len() + 2 - p,
{
    if 0 <= p <= b.len() + 1 {
        let p2 = skip_ws(b, skip_fragments(b, p));
        lemma_skip_fragments_bounds(b, p);
        lemma_skip_ws_from_bounds(b, skip_fragments(b, p), false);
        match next_operation_start(b, p2) {
            None => {},
            Some(st) => {
                lemma_sel_set_limits(c1, c2, b, st, 1);
                match sel_set(c1, b, st, 1) {
                    Scan::Fault(f) => {},
                    Scan::Done(c, d, e) => if p2 < e <= b.len() + 1 {
                        lemma_later_operations_limits(c1, c2, b, e, cost + c, if d > maxd { d } else { maxd });
                    },
                }
            },
        }
    }
}

/// The analysis of a query depends on the per-field costs only, not on the
/// limits it is then held to.
pub proof fn lemma_analysis_ignores_limits(c1: CostConfig, c2: CostConfig, b: Seq<u8>)
    requires
        c1.field_costs == c2.field_costs,
    ensures
        analysis(c1, b) == analysis(c2, b),
{
    let p = skip_ws(b, skip_fragments(b, 0));
    if p < b.len() {
        if b[p] == 0x7Bu8 {
            lemma_sel_set_limits(c1, c2, b, p, 1);
        } else {
            let q = skip_ws(b, p);
            if q < b.len() && is_alpha(b[q]) {
                let e = consume_name(b, q);
                let name = b.subrange(q, e);
                if is_operation_keyword(name) {
                    lemma_sel_set_limits(c1, c2, b, first_header_end(b, e, name), 1);
                }
            }
        }
    }
    match first_operation(c1, b, p) {
        Scan::Fault(f) => {},
        Scan::Done(c, d, e) => {
            lemma_later_operations_limits(c1, c2, b, e, c, d);
        },
    }
}

/// Raising the limits never rejects a query that was accepted: with the
/// same per-field costs and limits at least as high, it is accepted again
/// with the same cost.
pub proof fn lemma_higher_limits_accept(c1: CostConfig, c2: CostConfig, b: Seq<u8>, cost: u32)
    requires
        c1.field_costs == c2.field_costs,
        c1.max_cost <= c2.max_cost,
        c1.max_depth <= c2.max_depth,
        verdict(c1, b, Ok(cost)),
    ensures
        verdict(c2, b, Ok(cost)),
{
    lemma_analysis_ignores_limits(c1, c2, b);
    lemma_analysis_cost(c1, b);
}

/// An accepted query is within both limits: its reported cost is at most
/// `max_cost`, and its nesting depth at most `max_depth`.
pub proof fn lemma_accepted_within_limits(cfg: CostConfig, b: Seq<u8>, cost: u32)
    requires
        verdict(cfg, b, Ok(cost)),
    ensures
        cost <= cfg.max_cost,
        analysis(cfg, b) matches Scan::Done(c, d, _) && sat(d) <= cfg.max_depth && sat(c) == cost,
{
    lemma_analysis_cost(cfg, b);
}

// ---------------------------------------------------------------------------
// Position bounds
// ---------------------------------------------------------------------------

pub proof fn lemma_skip_ws_bounds(b: Seq<u8>, p: int)
    requires
        0 <= p <= b.len() + 1,
    ensures
        p <= skip_ws(b, p) <= b.len() + 1,
        p <= b.len() ==> skip_ws(b, p) <= b.len(),
{
    lemma_skip_ws_from_bounds(b, p, false);
}

pub proof fn lemma_consume_name_bounds(b: Seq<u8>, p: int)
    requires
        0 <= p <= b.len() + 1,
    ensures
        p <= skip_ws(b, p) <= consume_name(b, p) <= b.len() + 1,
        p <= b.len() ==> consume_name(b, p) <= b.len(),
{
    lemma_skip_ws_bounds(b, p);
    lemma_name_end_bounds(b, skip_ws(b, p));
}

pub proof fn lemma_skip_word_bounds(b: Seq<u8>, p: int)
    requires
        0 <= p <= b.len() + 1,
    ensures
        p <= skip_word(b, p) <= b.len() + 1,
        p <= b.len() ==> skip_word(b, p) <= b.len(),
{
    lemma_skip_ws_bounds(b, p);
    lemma_word_end_bounds(b, skip_ws(b, p));
}

pub proof fn lemma_consume_keyword_bounds(b: Seq<u8>, p: int, kw: Seq<u8>)
    requires
        0 <= p <= b.len() + 1,
    ensures
        p <= consume_keyword(b, p, kw) <= b.len() + 1,
        keyword_at(b, p, kw) ==> consume_keyword(b, p, kw) >= skip_ws(b, p) + kw.len(),
        p <= b.len() ==> consume_keyword(b, p, kw) <= b.len(),
{
    lemma_skip_ws_bounds(b, p);
}

pub proof fn lemma_skip_args_bounds(b: Seq<u8>, p: int)
    requires
        0 <= p < b.len(),
    ensures
        p < skip_args(b, p) <= b.len() + 1,
        p < skip_braces(b, p) <= b.len() + 1,
{
    lemma_balanced_end_bounds(b, p + 1, 0x28u8, 0x29u8, 1, false);
    lemma_balanced_end_bounds(b, p + 1, 0x7Bu8, 0x7Du8, 1, true);
}

pub proof fn lemma_spread_bounds(b: Seq<u8>, q: int)
    requires
        is_spread_at(b, q),
    ensures
        q + 3 <= inline_header_end(b, q) <= b.len() + 1,
        q + 3 <= spread_end(b, q) <= b.len() + 1,
{
    let r = skip_ws(b, q + 3);
    lemma_skip_ws_bounds(b, q + 3);
    lemma_consume_keyword_bounds(b, r, kw_on());
    let r0 = consume_keyword(b, r, kw_on());
    lemma_skip_ws_bounds(b, r0);
    let r1 = skip_ws(b, r0);
    lemma_consume_name_bounds(b, r1);
    lemma_skip_ws_bounds(b, consume_name(b, r1));
    let r2 = skip_ws(b, consume_name(b, r1));
    lemma_skip_word_bounds(b, r2);
    lemma_consume_name_bounds(b, r);
    lemma_skip_ws_bounds(b, consume_name(b, r));
    let s1 = skip_ws(b, consume_name(b, r));
    lemma_skip_word_bounds(b, s1);
}

pub proof fn lemma_field_header_bounds(b: Seq<u8>, q: int)
    requires
        0 <= q <= b.len() + 1,
    ensures
        q <= field_header_end(b, q) <= b.len() + 1,
{
    lemma_consume_name_bounds(b, q);
    let e = consume_name(b, q);
    lemma_skip_ws_bounds(b, e);
    let r1 = skip_ws(b, e);
    if r1 < b.len() && b[r1] == 0x3Au8 {
        lemma_consume_name_bounds(b, r1 + 1);
    }
    let r2 = if r1 < b.len() && b[r1] == 0x3Au8 {
        consume_name(b, r1 + 1)
    } else {
        r1
    };
    lemma_skip_ws_bounds(b, r2);
    let r3 = skip_ws(b, r2);
    if r3 < b.len() && b[r3] == 0x28u8 {
        lemma_skip_args_bounds(b, r3);
    }
    let r4 = if r3 < b.len() && b[r3] == 0x28u8 {
        skip_args(b, r3)
    } else {
        r3
    };
    lemma_skip_ws_bounds(b, r4);
    lemma_skip_directives_bounds(b, skip_ws(b, r4));
    lemma_skip_ws_bounds(b, skip_directives(b, skip_ws(b, r4)));
}

pub proof fn lemma_fragment_def_bounds(b: Seq<u8>, p: int)
    requires
        0 <= p <= b.len() + 1,
        is_fragment_def(b, p),
    ensures
        p < fragment_def_end(b, p) <= b.len() + 1,
        p < skip_ws(b, fragment_def_end(b, p)) <= b.len() + 1,
{
    lemma_skip_ws_bounds(b, p);
    let q = skip_ws(b, p);
    lemma_consume_keyword_bounds(b, q, kw_fragment());
    let k = consume_keyword(b, q, kw_fragment());
    lemma_skip_ws_bounds(b, k);
    let r1 = skip_ws(b, k);
    lemma_consume_name_bounds(b, r1);
    lemma_skip_ws_bounds(b, consume_name(b, r1));
    let r2 = skip_ws(b, consume_name(b, r1));
    lemma_consume_keyword_bounds(b, r2, kw_on());
    lemma_skip_ws_bounds(b, consume_keyword(b, r2, kw_on()));
    let r3 = skip_ws(b, consume_keyword(b, r2, kw_on()));
    lemma_consume_name_bounds(b, r3);
    lemma_skip_ws_bounds(b, consume_name(b, r3));
    let r4 = skip_ws(b, consume_name(b, r3));
    lemma_skip_directives_bounds(b, r4);
    let r5 = skip_directives(b, r4);
    if r5 < b.len() && b[r5] == 0x7Bu8 {
        lemma_skip_args_bounds(b, r5);
    }
    lemma_skip_ws_bounds(b, fragment_def_end(b, p));
}

pub proof fn lemma_skip_fragments_bounds(b: Seq<u8>, p: int)
    requires
        0 <= p <= b.len() + 1,
    ensures
        p <= skip_fragments(b, p) <= b.len() + 1,
    decreases b.len() + 2 - p,
{
    if is_fragment_def(b, p) {
        lemma_fragment_def_bounds(b, p);
        lemma_skip_fragments_bounds(b, skip_ws(b, fragment_def_end(b, p)));
    }
}

pub proof fn lemma_first_header_bounds(b: Seq<u8>, p: int, kw: Seq<u8>)
    requires
        0 <= p <= b.len() + 1,
    ensures
        p <= first_header_end(b, p, kw) <= b.len() + 1,
        p <= later_header_end(b, p, kw) <= b.len() + 1,
{
    lemma_consume_keyword_bounds(b, p, kw);
    let r1 = consume_keyword(b, p, kw);
    lemma_skip_ws_bounds(b, r1);
    let r2 = skip_ws(b, r1);
    lemma_consume_name_bounds(b, r2);
    let r3 = if r2 < b.len() && is_alnum(b[r2]) {
        consume_name(b, r2)
    } else {
        r1
    };
    lemma_skip_ws_bounds(b, r3);
    let r4 = skip_ws(b, r3);
    if r4 < b.len() && b[r4] == 0x28u8 {
        lemma_skip_args_bounds(b, r4);
    }
    let r5 = if r4 < b.len() && b[r4] == 0x28u8 {
        skip_args(b, r4)
    } else {
        r4
    };
    lemma_skip_ws_bounds(b, r5);
    lemma_skip_directives_bounds(b, skip_ws(b, r5));
    let t3 = if r2 < b.len() && is_alnum(b[r2]) {
        consume_name(b, r2)
    } else {
        r2
    };
    lemma_skip_ws_bounds(b, t3);
    let t4 = skip_ws(b, t3);
    if t4 < b.len() && b[t4] == 0x28u8 {
        lemma_skip_args_bounds(b, t4);
    }
}

/// Saturating addition agrees with saturating the exact sum.
pub proof fn lemma_sat_add(x: int, y: int)
    requires
        x >= 0,
        y >= 0,
    ensures
        sat(sat(x) + y) == sat(x + y),
        sat(x + sat(y)) == sat(x + y),
        sat(sat(x) + sat(y)) == sat(x + y),
{
}

// ---------------------------------------------------------------------------
// Executable analysis
// ---------------------------------------------------------------------------

/// The result of scanning a selection set or operation, as the spec `s`
/// describes it, with costs and depths saturated at `u32::MAX`.
pub open spec fn scan_agrees(s: Scan, r: Result<(u32, u32), CostError>, end: int) -> bool {
    match s {
        Scan::Done(c, d, e) => r == Ok::<(u32, u32), CostError>((sat(c) as u32, sat(d) as u32))
            && end == e,
        Scan::Fault(f) => r matches Err(CostError::ParseError(m)) && m@ == fault_message(f),
    }
}

fn unterminated_error() -> (e: CostError)
    ensures
        e matches CostError::ParseError(m) && m@ == fault_message(ScanFault::Unterminated),
{
    CostError::ParseError("unterminated selection set".to_owned())
}

fn expected_brace_error(q: usize) -> (e: CostError)
    ensures
        e matches CostError::ParseError(m) && m@ == fault_message(
            ScanFault::ExpectedBrace(q as int),
        ),
{
    CostError::ParseError(message_with_position("expected '{' at position ", q))
}

fn no_progress_error(q: usize) -> (e: CostError)
    ensures
        e matches CostError::ParseError(m) && m@ == fault_message(
            ScanFault::NoProgress(q as int),
        ),
{
    CostError::ParseError(message_with_position("unexpected token at position ", q))
}

/// Whether `bytes[start..end]` equals `lit`.
fn range_eq(bytes: &[u8], start: usize, end: usize, lit: &[u8]) -> (r: bool)
    requires
        start <= end <= bytes@.len(),
    ensures
        r == (bytes@.subrange(start as int, end as int) == lit@),
{
    if end - start != lit.len() {
        return false;
    }
    let mut i: usize = 0;
    while i < lit.len()
        invariant
            start <= end <= bytes@.len(),
            end - start == lit@.len(),
            i <= lit@.len(),
            forall|j: int| 0 <= j < i ==> bytes@[start + j] == #[trigger] lit@[j],
        decreases lit@.len() - i,
    {
        if bytes[start + i] != lit[i] {
            assert(bytes@.subrange(start as int, end as int)[i as int] != lit@[i as int]);
            return false;
        }
        i += 1;
    }
    assert(bytes@.subrange(start as int, end as int) =~= lit@);
    true
}

/// Whether the lower-cased `bytes[start..end]` contains `lit` (lower case).
fn range_lower_contains(bytes: &[u8], start: usize, end: usize, lit: &[u8]) -> (r: bool)
    requires
        start <= end <= bytes@.len(),
    ensures
        r == contains_seq(lower_seq(bytes@.subrange(start as int, end as int)), lit@),
{
    let ghost s = lower_seq(bytes@.subrange(start as int, end as int));
    let n = end - start;
    if lit.len() > n {
        assert forall|i: int| 0 <= i && i + lit@.len() <= s.len() implies #[trigger] s.subrange(
            i,
            i + lit@.len(),
        ) != lit@ by {}
        return false;
    }
    let mut i: usize = 0;
    while i <= n - lit.len()
        invariant
            start <= end <= bytes@.len(),
            n == end - start,
            lit@.len() <= n,
            s == lower_seq(bytes@.subrange(start as int, end as int)),
            i <= n - lit@.len() + 1,
            forall|k: int| 0 <= k < i ==> #[trigger] s.subrange(k, k + lit@.len()) != lit@,
        decreases n + 1 - i,
    {
        let mut j: usize = 0;
        let mut same = true;
        while j < lit.len()
            invariant
                start <= end <= bytes@.len(),
                n == end - start,
                i + lit@.len() <= n,
                j <= lit@.len(),
                s == lower_seq(bytes@.subrange(start as int, end as int)),
                same == (forall|m: int| 0 <= m < j ==> s[i + m] == #[trigger] lit@[m]),
            decreases lit@.len() - j,
        {
            if lower_byte(bytes[start + i + j]) != lit[j] {
                same = false;
            }
            j += 1;
        }
        if same {
            assert(s.subrange(i as int, i + lit@.len()) =~= lit@);
            return true;
        }
        proof {
            let m = choose|m: int| 0 <= m < lit@.len() && s[i + m] != #[trigger] lit@[m];
            assert(s.subrange(i as int, i + lit@.len())[m] != lit@[m]);
        }
        i += 1;
    }
    false
}

/// Whether the lower-cased `bytes[start..end]` ends with `lit` (lower case).
fn range_lower_ends_with(bytes: &[u8], start: usize, end: usize, lit: &[u8]) -> (r: bool)
    requires
        start <= end <= bytes@.len(),
    ensures
        r == ends_with_seq(lower_seq(bytes@.subrange(start as int, end as int)), lit@),
{
    let ghost s = lower_seq(bytes@.subrange(start as int, end as int));
    let n = end - start;
    if lit.len() > n {
        return false;
    }
    let off = n - lit.len();
    let mut j: usize = 0;
    while j < lit.len()
        invariant
            start <= end <= bytes@.len(),
            n == end - start,
            off + lit@.len() == n,
            j <= lit@.len(),
            s == lower_seq(bytes@.subrange(start as int, end as int)),
            forall|m: int| 0 <= m < j ==> s[off + m] == #[trigger] lit@[m],
        decreases lit@.len() - j,
    {
        if lower_byte(bytes[start + off + j]) != lit[j] {
            assert(s.subrange(off as int, n as int)[j as int] != lit@[j as int]);
            return false;
        }
        j += 1;
    }
    assert(s.subrange(off as int, n as int) =~= lit@);
    true
}

/// Built-in cost of the field named by `bytes[start..end]`.
fn builtin_field_cost(bytes: &[u8], start: usize, end: usize) -> (r: u32)
    requires
        start <= end <= bytes@.len(),
    ensures
        r == builtin_cost(bytes@.subrange(start as int, end as int)),
{
    if range_eq(bytes, start, end, kw_articles_bytes().as_slice()) || range_eq(
        bytes,
        start,
        end,
        kw_search_bytes().as_slice(),
    ) || range_eq(bytes, start, end, kw_prices_bytes().as_slice()) {
        5
    } else if range_eq(bytes, start, end, kw_edges_bytes().as_slice()) {
        3
    } else if range_eq(bytes, start, end, kw_node_bytes().as_slice()) {
        1
    } else if range_eq(bytes, start, end, kw_schema_bytes().as_slice()) || range_eq(
        bytes,
        start,
        end,
        kw_type_bytes().as_slice(),
    ) || range_eq(bytes, start, end, kw_typename_bytes().as_slice()) {
        0
    } else if range_lower_contains(bytes, start, end, kw_connection_bytes().as_slice())
        || range_lower_ends_with(bytes, start, end, kw_list_bytes().as_slice()) {
        5
    } else {
        2
    }
}

/// Looks `bytes[start..end]` up among the cost overrides.
fn lookup_custom_cost(entries: &Vec<(String, u32)>, bytes: &[u8], start: usize, end: usize) -> (r:
    Option<u32>)
    requires
        start <= end <= bytes@.len(),
    ensures
        r == custom_cost(entries@, bytes@.subrange(start as int, end as int)),
{
    let ghost name = bytes@.subrange(start as int, end as int);
    let mut i: usize = 0;
    assert(entries@.subrange(0, entries@.len() as int) =~= entries@);
    while i < entries.len()
        invariant
            start <= end <= bytes@.len(),
            name == bytes@.subrange(start as int, end as int),
            i <= entries@.len(),
            custom_cost(entries@, name) == custom_cost(
                entries@.subrange(i as int, entries@.len() as int),
                name,
            ),
        decreases entries@.len() - i,
    {
        let ghost rest = entries@.subrange(i as int, entries@.len() as int);
        assert(rest.drop_first() =~= entries@.subrange(i + 1, entries@.len() as int));
        let key = entries[i].0.as_str().as_bytes();
        if range_eq(bytes, start, end, key) {
            return Some(entries[i].1);
        }
        i += 1;
    }
    assert(entries@.subrange(i as int, entries@.len() as int) =~= Seq::<(String, u32)>::empty());
    None
}

/// Skips the fragment definition at `pos` if one stands there.
fn skip_fragment_definition(bytes: &[u8], pos: &mut usize) -> (r: bool)
    requires
        bytes@.len() < usize::MAX,
        *old(pos) <= bytes@.len() + 1,
    ensures
        r == is_fragment_def(bytes@, *old(pos) as int),
        *final(pos) == if r {
            fragment_def_end(bytes@, *old(pos) as int)
        } else {
            *old(pos) as int
        },
{
    let ghost b = bytes@;
    let ghost p = *pos as int;
    let saved = *pos;
    skip_whitespace_and_comments(bytes, pos);
    proof {
        lemma_skip_ws_bounds(b, p);
        lemma_skip_ws_idempotent(b, p);
    }
    let fragment = kw_fragment_bytes();
    if !consume_keyword_at(bytes, pos, fragment.as_slice()) {
        *pos = saved;
        return false;
    }
    skip_whitespace_and_comments(bytes, pos);
    let _ = consume_name_range(bytes, pos);
    skip_whitespace_and_comments(bytes, pos);
    let on = kw_on_bytes();
    let _ = consume_keyword_at(bytes, pos, on.as_slice());
    skip_whitespace_and_comments(bytes, pos);
    let _ = consume_name_range(bytes, pos);
    skip_whitespace_and_comments(bytes, pos);
    proof {
        lemma_fragment_def_bounds(b, p);
        let q = skip_ws(b, p);
        let k = consume_keyword(b, q, kw_fragment());
        lemma_consume_keyword_bounds(b, q, kw_fragment());
        lemma_skip_ws_bounds(b, k);
        let r1 = skip_ws(b, k);
        lemma_consume_name_bounds(b, r1);
        lemma_skip_ws_bounds(b, consume_name(b, r1));
        let r2 = skip_ws(b, consume_name(b, r1));
        lemma_consume_keyword_bounds(b, r2, kw_on());
        lemma_skip_ws_bounds(b, consume_keyword(b, r2, kw_on()));
        let r3 = skip_ws(b, consume_keyword(b, r2, kw_on()));
        lemma_consume_name_bounds(b, r3);
        lemma_skip_ws_bounds(b, consume_name(b, r3));
    }
    skip_directives_at(bytes, pos);
    if *pos < bytes.len() && bytes[*pos] == 0x7Bu8 {
        skip_balanced_with_nesting(bytes, pos);
    }
    true
}

/// Skips any run of fragment definitions, each followed by whitespace.
fn skip_fragment_definitions(bytes: &[u8], pos: &mut usize)
    requires
        bytes@.len() < usize::MAX,
        *old(pos) <= bytes@.len() + 1,
    ensures
        *final(pos) == skip_fragments(bytes@, *old(pos) as int),
        *final(pos) <= bytes@.len() + 1,
{
    let ghost p0 = *pos as int;
    proof {
        lemma_skip_fragments_bounds(bytes@, p0);
    }
    let mut p = *pos;
    loop
        invariant
            bytes@.len() < usize::MAX,
            p <= bytes@.len() + 1,
            skip_fragments(bytes@, p0) == skip_fragments(bytes@, p as int),
        ensures
            p <= bytes@.len() + 1,
            skip_fragments(bytes@, p0) == p as int,
        decreases bytes@.len() + 2 - p,
    {
        let ghost before = p as int;
        if !skip_fragment_definition(bytes, &mut p) {
            assert(skip_fragments(bytes@, p as int) == p as int);
            break;
        }
        proof {
            lemma_fragment_def_bounds(bytes@, before);
        }
        skip_whitespace_and_comments(bytes, &mut p);
    }
    *pos = p;
}

/// Scans `... on Type @dir` at `pos` (the `...` stands there).
fn scan_inline_header(bytes: &[u8], pos: &mut usize)
    requires
        bytes@.len() < usize::MAX,
        is_spread_at(bytes@, *old(pos) as int),
    ensures
        *final(pos) == inline_header_end(bytes@, *old(pos) as int),
{
    *pos += 3;
    skip_whitespace_and_comments(bytes, pos);
    let on = kw_on_bytes();
    let _ = consume_keyword_at(bytes, pos, on.as_slice());
    skip_whitespace_and_comments(bytes, pos);
    let _ = consume_name_range(bytes, pos);
    skip_whitespace_and_comments(bytes, pos);
    if *pos < bytes.len() && bytes[*pos] == 0x40u8 {
        skip_word_at(bytes, pos);
    }
}

/// Scans the fragment spread `...name @dir` at `pos`.
fn scan_spread(bytes: &[u8], pos: &mut usize)
    requires
        bytes@.len() < usize::MAX,
        is_spread_at(bytes@, *old(pos) as int),
    ensures
        *final(pos) == spread_end(bytes@, *old(pos) as int),
{
    *pos += 3;
    skip_whitespace_and_comments(bytes, pos);
    let _ = consume_name_range(bytes, pos);
    skip_whitespace_and_comments(bytes, pos);
    if *pos < bytes.len() && bytes[*pos] == 0x40u8 {
        skip_word_at(bytes, pos);
    }
}

/// Whether the spread at `q` is an inline fragment (`... on`).
fn inline_fragment_at(bytes: &[u8], q: usize) -> (r: bool)
    requires
        bytes@.len() < usize::MAX,
        is_spread_at(bytes@, q as int),
    ensures
        r == is_inline_fragment(bytes@, q as int),
{
    let mut probe = q + 3;
    skip_whitespace_and_comments(bytes, &mut probe);
    proof {
        lemma_skip_ws_bounds(bytes@, q + 3);
    }
    probe < bytes.len() && bytes.len() - probe > 2 && bytes[probe] == 0x6Fu8 && bytes[probe + 1]
        == 0x6Eu8 && !is_alnum_byte(bytes[probe + 2])
}

/// Scans a field's name, alias, arguments and directives at `pos`; returns
/// the extent of the name.
fn scan_field_header(bytes: &[u8], pos: &mut usize) -> (r: (usize, usize))
    requires
        bytes@.len() < usize::MAX,
        *old(pos) <= bytes@.len() + 1,
    ensures
        r.0 == field_name_start(bytes@, *old(pos) as int),
        r.1 == field_name_end(bytes@, *old(pos) as int),
        *final(pos) == field_header_end(bytes@, *old(pos) as int),
        r.0 <= r.1 <= bytes@.len() + 1,
        *old(pos) <= bytes@.len() ==> r.1 <= bytes@.len(),
{
    let ghost b = bytes@;
    let ghost q = *pos as int;
    proof {
        lemma_consume_name_bounds(b, q);
    }
    let mut name = consume_name_range(bytes, pos);
    skip_whitespace_and_comments(bytes, pos);
    if *pos < bytes.len() && bytes[*pos] == 0x3Au8 {
        proof {
            lemma_skip_ws_bounds(b, name.1 as int);
            lemma_consume_name_bounds(b, *pos + 1);
        }
        *pos += 1;
        name = consume_name_range(bytes, pos);
    }
    proof {
        lemma_skip_ws_bounds(b, consume_name(b, q));
        let r1 = skip_ws(b, consume_name(b, q));
        if r1 < b.len() && b[r1] == 0x3Au8 {
            lemma_consume_name_bounds(b, r1 + 1);
        }
    }
    skip_whitespace_and_comments(bytes, pos);
    if *pos < bytes.len() && bytes[*pos] == 0x28u8 {
        skip_balanced(bytes, pos);
    }
    proof {
        lemma_field_header_bounds(b, q);
        let r1 = skip_ws(b, consume_name(b, q));
        let r2 = if r1 < b.len() && b[r1] == 0x3Au8 {
            consume_name(b, r1 + 1)
        } else {
            r1
        };
        lemma_skip_ws_bounds(b, r2);
        let r3 = skip_ws(b, r2);
        if r3 < b.len() && b[r3] == 0x28u8 {
            lemma_skip_args_bounds(b, r3);
        }
        let r4 = if r3 < b.len() && b[r3] == 0x28u8 {
            skip_args(b, r3)
        } else {
            r3
        };
        lemma_skip_ws_bounds(b, r4);
    }
    skip_whitespace_and_comments(bytes, pos);
    skip_directives_at(bytes, pos);
    skip_whitespace_and_comments(bytes, pos);
    name
}

/// Scans the header of the first operation: the keyword `kw` ends at `pos`.
fn scan_first_header(bytes: &[u8], pos: &mut usize, kw: &[u8])
    requires
        bytes@.len() < usize::MAX,
        *old(pos) <= bytes@.len() + 1,
    ensures
        *final(pos) == first_header_end(bytes@, *old(pos) as int, kw@),
{
    let ghost b = bytes@;
    let ghost p = *pos as int;
    proof {
        lemma_first_header_bounds(b, p, kw@);
        lemma_consume_keyword_bounds(b, p, kw@);
        lemma_skip_ws_bounds(b, consume_keyword(b, p, kw@));
        lemma_consume_name_bounds(b, skip_ws(b, consume_keyword(b, p, kw@)));
    }
    let _ = consume_keyword_at(bytes, pos, kw);
    let saved = *pos;
    skip_whitespace_and_comments(bytes, pos);
    if *pos < bytes.len() && is_alnum_byte(bytes[*pos]) {
        let _ = consume_name_range(bytes, pos);
    } else {
        *pos = saved;
    }
    proof {
        let r1 = consume_keyword(b, p, kw@);
        let r2 = skip_ws(b, r1);
        let r3 = if r2 < b.len() && is_alnum(b[r2]) {
            consume_name(b, r2)
        } else {
            r1
        };
        lemma_skip_ws_bounds(b, r3);
        let r4 = skip_ws(b, r3);
        if r4 < b.len() && b[r4] == 0x28u8 {
            lemma_skip_args_bounds(b, r4);
        }
        let r5 = if r4 < b.len() && b[r4] == 0x28u8 {
            skip_args(b, r4)
        } else {
            r4
        };
        lemma_skip_ws_bounds(b, r5);
    }
    skip_whitespace_and_comments(bytes, pos);
    if *pos < bytes.len() && bytes[*pos] == 0x28u8 {
        skip_balanced(bytes, pos);
    }
    skip_whitespace_and_comments(bytes, pos);
    skip_directives_at(bytes, pos);
}

/// Scans the header of a later operation: the keyword `kw` ends at `pos`.
fn scan_later_header(bytes: &[u8], pos: &mut usize, kw: &[u8])
    requires
        bytes@.len() < usize::MAX,
        *old(pos) <= bytes@.len() + 1,
    ensures
        *final(pos) == later_header_end(bytes@, *old(pos) as int, kw@),
{
    let ghost b = bytes@;
    let ghost p = *pos as int;
    proof {
        lemma_consume_keyword_bounds(b, p, kw@);
        lemma_skip_ws_bounds(b, consume_keyword(b, p, kw@));
        let r2 = skip_ws(b, consume_keyword(b, p, kw@));
        lemma_consume_name_bounds(b, r2);
        let r3 = if r2 < b.len() && is_alnum(b[r2]) {
            consume_name(b, r2)
        } else {
            r2
        };
        lemma_skip_ws_bounds(b, r3);
    }
    let _ = consume_keyword_at(bytes, pos, kw);
    skip_whitespace_and_comments(bytes, pos);
    if *pos < bytes.len() && is_alnum_byte(bytes[*pos]) {
        let _ = consume_name_range(bytes, pos);
    }
    skip_whitespace_and_comments(bytes, pos);
    if *pos < bytes.len() && bytes[*pos] == 0x28u8 {
        skip_balanced(bytes, pos);
    }
}

/// Whether the name `bytes[start..end]` is an operation keyword; returns
/// the keyword's bytes.
fn operation_keyword(bytes: &[u8], start: usize, end: usize) -> (r: Option<Vec<u8>>)
    requires
        start <= end <= bytes@.len(),
    ensures
        is_operation_keyword(bytes@.subrange(start as int, end as int)) == r is Some,
        r matches Some(k) ==> k@ == bytes@.subrange(start as int, end as int),
{
    let q = kw_query_bytes();
    if range_eq(bytes, start, end, q.as_slice()) {
        return Some(q);
    }
    let m = kw_mutation_bytes();
    if range_eq(bytes, start, end, m.as_slice()) {
        return Some(m);
    }
    let s = kw_subscription_bytes();
    if range_eq(bytes, start, end, s.as_slice()) {
        return Some(s);
    }
    None
}

/// Finds where the next operation's selection set starts, consuming its
/// keyword and header.
fn find_next_operation(bytes: &[u8], pos: &mut usize) -> (r: Option<usize>)
    requires
        bytes@.len() < usize::MAX,
        *old(pos) <= bytes@.len() + 1,
    ensures
        r matches Some(s) ==> next_operation_start(bytes@, *old(pos) as int) == Some(s as int),
        r is None ==> next_operation_start(bytes@, *old(pos) as int) is None,
        r matches Some(s) ==> *old(pos) <= s <= bytes@.len() + 1,
{
    let ghost b = bytes@;
    let ghost p = *pos as int;
    if *pos >= bytes.len() {
        return None;
    }
    if bytes[*pos] == 0x7Bu8 {
        return Some(*pos);
    }
    let ghost q = skip_ws(b, p);
    proof {
        lemma_skip_ws_bounds(b, p);
        lemma_consume_name_bounds(b, q);
    }
    match peek_keyword(bytes, pos) {
        Some((s, e)) => match operation_keyword(bytes, s, e) {
            Some(kw) => {
                proof {
                    lemma_first_header_bounds(b, e as int, kw@);
                }
                scan_later_header(bytes, pos, kw.as_slice());
                Some(*pos)
            },
            None => None,
        },
        None => None,
    }
}

fn max_u32(a: u32, b: u32) -> (r: u32)
    ensures
        r == if a > b {
            a
        } else {
            b
        },
{
    if a > b {
        a
    } else {
        b
    }
}

impl CostAnalyzer {
    /// The configuration the analyzer applies.
    pub closed spec fn settings(&self) -> CostConfig {
        self.config
    }

    pub fn new(config: CostConfig) -> (r: Self)
        ensures
            r.settings() == config,
    {
        Self { config }
    }

    /// Cost of the query, or why it is rejected: a parse error, a depth
    /// above `max_depth` (checked first) or a cost above `max_cost`.
    pub fn analyze(&self, query: &str) -> (r: Result<u32, CostError>)
        requires
            query.spec_bytes().len() < usize::MAX,
        ensures
            verdict(self.settings(), query.spec_bytes(), r),
    {
        let bytes = query.as_bytes();
        let ghost b = bytes@;
        let ghost cfg = self.config;
        let mut pos: usize = 0;
        skip_fragment_definitions(bytes, &mut pos);
        proof {
            lemma_skip_ws_bounds(b, pos as int);
        }
        skip_whitespace_and_comments(bytes, &mut pos);
        let first = self.first_operation(bytes, &mut pos);
        let (mut total_cost, mut max_depth_seen) = match first {
            Err(e) => return Err(e),
            Ok(pair) => pair,
        };
        let ghost (mut cost_g, mut depth_g) = match first_operation(cfg, b, skip_ws(b, skip_fragments(b, 0))) {
            Scan::Done(c, d, _) => (c, d),
            Scan::Fault(_) => (0int, 0int),
        };
        let ghost mut end_g: int = 0;
        loop
            invariant_except_break
                pos <= b.len() + 1,
                analysis(cfg, b) == later_operations(cfg, b, pos as int, cost_g, depth_g),
            invariant
                bytes@ == b,
                b == query.spec_bytes(),
                b.len() < usize::MAX,
                cfg == self.config,
                cost_g >= 0,
                depth_g >= 0,
                total_cost == sat(cost_g),
                max_depth_seen == sat(depth_g),
            ensures
                analysis(cfg, b) == Scan::Done(cost_g, depth_g, end_g),
            decreases b.len() + 2 - pos,
        {
            let ghost p = pos as int;
            proof {
                lemma_skip_fragments_bounds(b, p);
                lemma_skip_ws_bounds(b, skip_fragments(b, p));
            }
            skip_fragment_definitions(bytes, &mut pos);
            skip_whitespace_and_comments(bytes, &mut pos);
            let p2 = pos;
            match find_next_operation(bytes, &mut pos) {
                None => {
                    proof {
                        end_g = p2 as int;
                    }
                    break;
                },
                Some(s) => {
                    let mut at = s;
                    match self.cost_of_selection_set(bytes, &mut at, 1, Ghost(1int)) {
                        Err(e) => return Err(e),
                        Ok((c, d)) => {
                            let ghost (cg, dg) = match sel_set(cfg, b, s as int, 1) {
                                Scan::Done(c, d, _) => (c, d),
                                Scan::Fault(_) => (0int, 0int),
                            };
                            proof {
                                lemma_sat_add(cost_g, cg);
                            }
                            total_cost = total_cost.saturating_add(c);
                            max_depth_seen = max_u32(max_depth_seen, d);
                            proof {
                                cost_g = cost_g + cg;
                                depth_g = if dg > depth_g {
                                    dg
                                } else {
                                    depth_g
                                };
                            }
                            pos = at;
                        },
                    }
                },
            }
        }
        self.check_limits(total_cost, max_depth_seen, Ghost(cost_g), Ghost(depth_g))
    }

    /// Scans the first operation at `pos` (whitespace already skipped).
    fn first_operation(&self, bytes: &[u8], pos: &mut usize) -> (r: Result<(u32, u32), CostError>)
        requires
            bytes@.len() < usize::MAX,
            *old(pos) <= bytes@.len() + 1,
        ensures
            scan_agrees(first_operation(self.config, bytes@, *old(pos) as int), r, *final(pos) as int),
            r is Ok ==> *final(pos) <= bytes@.len() + 1,
            r is Ok ==> (first_operation(self.config, bytes@, *old(pos) as int) matches Scan::Done(
                c,
                d,
                _,
            ) && c >= 0 && d >= 0),
    {
        let ghost b = bytes@;
        let ghost p = *pos as int;
        if *pos < bytes.len() {
            if bytes[*pos] == 0x7Bu8 {
                return self.cost_of_selection_set(bytes, pos, 1, Ghost(1int));
            }
            proof {
                lemma_consume_name_bounds(b, p);
            }
            match peek_keyword(bytes, pos) {
                Some((s, e)) => {
                    match operation_keyword(bytes, s, e) {
                        Some(kw) => {
                            scan_first_header(bytes, pos, kw.as_slice());
                            proof {
                                lemma_first_header_bounds(b, e as int, kw@);
                            }
                            return self.cost_of_selection_set(bytes, pos, 1, Ghost(1int));
                        },
                        None => {},
                    }
                },
                None => {},
            }
        }
        Ok((0, 0))
    }

    /// Cost and depth of the selection set that starts (after whitespace)
    /// at `pos`, nested at `depth`.
    fn cost_of_selection_set(
        &self,
        bytes: &[u8],
        pos: &mut usize,
        depth: u32,
        Ghost(depth_g): Ghost<int>,
    ) -> (r: Result<(u32, u32), CostError>)
        requires
            bytes@.len() < usize::MAX,
            *old(pos) <= bytes@.len() + 1,
            depth_g >= 1,
            depth == sat(depth_g),
        ensures
            scan_agrees(sel_set(self.config, bytes@, *old(pos) as int, depth_g), r, *final(pos) as int),
            r is Ok ==> *old(pos) < *final(pos) <= bytes@.len() + 1,
            r is Ok ==> (sel_set(self.config, bytes@, *old(pos) as int, depth_g) matches Scan::Done(
                c,
                d,
                _,
            ) && c >= 0 && d >= depth_g),
        decreases bytes@.len() + 2 - *old(pos),
    {
        let ghost b = bytes@;
        let ghost cfg = self.config;
        let ghost p0 = *pos as int;
        proof {
            lemma_skip_ws_bounds(b, p0);
            reveal(sel_set);
        }
        match expect_byte(bytes, pos, 0x7Bu8) {
            Err(q) => return Err(expected_brace_error(q)),
            Ok(()) => {},
        }
        let mut cost: u32 = 0;
        let mut max_child_depth: u32 = depth;
        let ghost mut cost_g: int = 0;
        let ghost mut maxd_g: int = depth_g;
        loop
            invariant
                bytes@ == b,
                b.len() < usize::MAX,
                cfg == self.config,
                p0 == *old(pos) as int,
                p0 < *pos <= b.len() + 1,
                depth_g >= 1,
                depth == sat(depth_g),
                cost_g >= 0,
                maxd_g >= depth_g,
                cost == sat(cost_g),
                max_child_depth == sat(maxd_g),
                sel_set(cfg, b, p0, depth_g) == sel_items(cfg, b, *pos as int, depth_g, cost_g, maxd_g),
            decreases b.len() + 2 - *pos,
        {
            let ghost p = *pos as int;
            proof {
                lemma_skip_ws_bounds(b, p);
                reveal(sel_set);
            }
            skip_whitespace_and_comments(bytes, pos);
            if *pos >= bytes.len() {
                assert(sel_items(cfg, b, p, depth_g, cost_g, maxd_g) == Scan::Fault(ScanFault::Unterminated));
                return Err(unterminated_error());
            }
            if bytes[*pos] == 0x7Du8 {
                *pos += 1;
                return Ok((cost, max_child_depth));
            }
            if bytes[*pos] == 0x2Cu8 {
                *pos += 1;
                continue;
            }
            let q = *pos;
            if bytes.len() - q > 2 && bytes[q] == 0x2Eu8 && bytes[q + 1] == 0x2Eu8 && bytes[q + 2]
                == 0x2Eu8 {
                proof {
                    lemma_spread_bounds(b, q as int);
                }
                if inline_fragment_at(bytes, q) {
                    scan_inline_header(bytes, pos);
                    let nested = self.cost_of_selection_set(
                        bytes,
                        pos,
                        depth.saturating_add(1),
                        Ghost(depth_g + 1),
                    );
                    match nested {
                        Err(e) => return Err(e),
                        Ok((nested_cost, nested_depth)) => {
                            let ghost (cg, dg) = match sel_set(cfg, b, inline_header_end(b, q as int), depth_g + 1) {
                                Scan::Done(c, d, _) => (c, d),
                                Scan::Fault(_) => (0int, 0int),
                            };
                            proof {
                                lemma_sat_add(cost_g, 2);
                                lemma_sat_add(cost_g + 2, cg);
                            }
                            cost = cost.saturating_add(2).saturating_add(nested_cost);
                            max_child_depth = max_u32(max_child_depth, nested_depth);
                            proof {
                                cost_g = cost_g + 2 + cg;
                                maxd_g = if dg > maxd_g {
                                    dg
                                } else {
                                    maxd_g
                                };
                            }
                        },
                    }
                } else {
                    scan_spread(bytes, pos);
                    proof {
                        lemma_sat_add(cost_g, 2);
                    }
                    cost = cost.saturating_add(2);
                    proof {
                        cost_g = cost_g + 2;
                    }
                }
            } else {
                proof {
                    lemma_field_header_bounds(b, q as int);
                }
                let (name_start, name_end) = scan_field_header(bytes, pos);
                let base = self.field_cost(bytes, name_start, name_end);
                if *pos < bytes.len() && bytes[*pos] == 0x7Bu8 {
                    let nested = self.cost_of_selection_set(
                        bytes,
                        pos,
                        depth.saturating_add(1),
                        Ghost(depth_g + 1),
                    );
                    match nested {
                        Err(e) => return Err(e),
                        Ok((nested_cost, nested_depth)) => {
                            let ghost (cg, dg) = match sel_set(cfg, b, field_header_end(b, q as int), depth_g + 1) {
                                Scan::Done(c, d, _) => (c, d),
                                Scan::Fault(_) => (0int, 0int),
                            };
                            proof {
                                lemma_sat_add(base as int, cg);
                                lemma_sat_add(cost_g, base + cg);
                            }
                            cost = cost.saturating_add(base.saturating_add(nested_cost));
                            max_child_depth = max_u32(max_child_depth, nested_depth);
                            proof {
                                cost_g = cost_g + base + cg;
                                maxd_g = if dg > maxd_g {
                                    dg
                                } else {
                                    maxd_g
                                };
                            }
                        },
                    }
                } else if *pos > q {
                    proof {
                        lemma_sat_add(cost_g, base as int);
                    }
                    cost = cost.saturating_add(base);
                    max_child_depth = max_u32(max_child_depth, depth.saturating_add(1));
                    proof {
                        cost_g = cost_g + base;
                        maxd_g = if depth_g + 1 > maxd_g {
                            depth_g + 1
                        } else {
                            maxd_g
                        };
                    }
                } else {
                    return Err(no_progress_error(q));
                }
            }
        }
    }

    /// Cost of the field named by `bytes[start..end]`: an override when one
    /// names it, the built-in cost otherwise.
    fn field_cost(&self, bytes: &[u8], start: usize, end: usize) -> (r: u32)
        requires
            start <= end <= bytes@.len(),
        ensures
            r == field_cost(self.config, bytes@.subrange(start as int, end as int)),
    {
        match &self.config.field_costs {
            Some(custom) => match lookup_custom_cost(custom, bytes, start, end) {
                Some(c) => c,
                None => builtin_field_cost(bytes, start, end),
            },
            None => builtin_field_cost(bytes, start, end),
        }
    }

    fn check_limits(&self, cost: u32, depth: u32, Ghost(cost_g): Ghost<int>, Ghost(depth_g): Ghost<int>) -> (r: Result<u32, CostError>)
        requires
            cost == sat(cost_g),
            depth == sat(depth_g),
        ensures
            r == if sat(depth_g) > self.config.max_depth {
                Err::<u32, CostError>(
                    CostError::TooDeep { depth: sat(depth_g) as u32, max: self.config.max_depth },
                )
            } else if sat(cost_g) > self.config.max_cost {
                Err::<u32, CostError>(
                    CostError::TooExpensive { cost: sat(cost_g) as u32, max: self.config.max_cost },
                )
            } else {
                Ok::<u32, CostError>(sat(cost_g) as u32)
            },
    {
        if depth > self.config.max_depth {
            return Err(CostError::TooDeep { depth, max: self.config.max_depth });
        }
        if cost > self.config.max_cost {
            return Err(CostError::TooExpensive { cost, max: self.config.max_cost });
        }
        Ok(cost)
    }
}

} // verus!
