//! The mock article catalogue behind the GraphQL federation schema: records
//! by EAN, field resolution, filtered listing and text search with
//! base64 cursors.
use vstd::prelude::*;
use vstd::string::StringSliceAdditionalSpecFns;
use vstd::utf8::encode_utf8;

use crate::text::{decimal, message_with_position, opt_view};

verus! {

// ---------------------------------------------------------------------------
// Text matching
// ---------------------------------------------------------------------------

/// Unicode lower-casing of a string, as `str::to_lowercase` performs it.
pub uninterp spec fn lowercase(s: Seq<char>) -> Seq<char>;

/// `str::to_lowercase` from std: the string with every character mapped to
/// its lower-case form. Its result is named `lowercase`; nothing more is
/// stated of it.
#[verifier::external_body]
fn to_lowercase(s: &str) -> (r: String)
    ensures
        r@ == lowercase(s@),
{
    s.to_lowercase()
}

/// `n` occurs in `h` as a contiguous run of characters.
pub open spec fn has_substring(h: Seq<char>, n: Seq<char>) -> bool {
    exists|i: int| 0 <= i && i + n.len() <= h.len() && #[trigger] h.subrange(i, i + n.len()) == n
}

/// `str::contains` from std with a `&str` pattern: whether the pattern
/// matches a sub-slice of the string.
#[verifier::external_body]
fn str_contains(hay: &str, needle: &str) -> (r: bool)
    ensures
        r == has_substring(hay@, needle@),
{
    hay.contains(needle)
}

/// `n` occurs in `h` once both are lower-cased.
pub open spec fn contains_ignoring_case(h: Seq<char>, n: Seq<char>) -> bool {
    has_substring(lowercase(h), lowercase(n))
}

fn contains_ignore_case(h: &str, n: &str) -> (r: bool)
    ensures
        r == contains_ignoring_case(h@, n@),
{
    let hl = to_lowercase(h);
    let nl = to_lowercase(n);
    str_contains(hl.as_str(), nl.as_str())
}

// ---------------------------------------------------------------------------
// Base64
// ---------------------------------------------------------------------------

/// Character code of the base64 digit `v` (`A-Z a-z 0-9 + /`).
pub open spec fn b64_byte(v: int) -> u8 {
    if v < 26 {
        (65 + v) as u8
    } else if v < 52 {
        (97 + v - 26) as u8
    } else if v < 62 {
        (48 + v - 52) as u8
    } else if v == 62 {
        43u8
    } else {
        47u8
    }
}

/// Standard base64 with `=` padding, as character codes.
pub open spec fn base64_bytes(b: Seq<u8>) -> Seq<u8>
    decreases b.len(),
{
    if b.len() == 0 {
        Seq::empty()
    } else if b.len() == 1 {
        seq![b64_byte((b[0] as int) / 4), b64_byte(((b[0] as int) % 4) * 16), 61u8, 61u8]
    } else if b.len() == 2 {
        seq![b64_byte((b[0] as int) / 4), b64_byte(((b[0] as int) % 4) * 16 + (b[1] as int) / 16), b64_byte(((b[1] as int) % 16) * 4), 61u8]
    } else {
        seq![
            b64_byte((b[0] as int) / 4),
            b64_byte(((b[0] as int) % 4) * 16 + (b[1] as int) / 16),
            b64_byte(((b[1] as int) % 16) * 4 + (b[2] as int) / 64),
            b64_byte((b[2] as int) % 64),
        ] + base64_bytes(b.subrange(3, b.len() as int))
    }
}

pub open spec fn ascii_chars(b: Seq<u8>) -> Seq<char> {
    b.map_values(|c: u8| c as char)
}

/// Base64 of the UTF-8 bytes of `s`.
pub open spec fn base64_of(s: Seq<char>) -> Seq<char> {
    ascii_chars(base64_bytes(encode_utf8(s)))
}

/// `String::from_utf8` from std on bytes that are all ASCII: the string of
/// those characters.
#[verifier::external_body]
fn ascii_string(bytes: Vec<u8>) -> (r: String)
    requires
        forall|i: int| 0 <= i < bytes@.len() ==> bytes@[i] < 128,
    ensures
        r@ == ascii_chars(bytes@),
{
    match String::from_utf8(bytes) {
        Ok(s) => s,
        Err(_) => String::new(),
    }
}

fn b64_digit(v: u32) -> (r: u8)
    requires
        v < 64,
    ensures
        r == b64_byte(v as int),
        r < 128,
{
    if v < 26 {
        (65 + v) as u8
    } else if v < 52 {
        (97 + v - 26) as u8
    } else if v < 62 {
        (48 + v - 52) as u8
    } else if v == 62 {
        43
    } else {
        47
    }
}

proof fn lemma_base64_step(b: Seq<u8>, i: int)
    requires
        0 <= i,
        i + 3 <= b.len(),
    ensures
        base64_bytes(b.subrange(i, b.len() as int)) == seq![
            b64_byte((b[i] as int) / 4),
            b64_byte(((b[i] as int) % 4) * 16 + (b[i + 1] as int) / 16),
            b64_byte(((b[i + 1] as int) % 16) * 4 + (b[i + 2] as int) / 64),
            b64_byte((b[i + 2] as int) % 64),
        ] + base64_bytes(b.subrange(i + 3, b.len() as int)),
{
    let s = b.subrange(i, b.len() as int);
    assert(s.subrange(3, s.len() as int) =~= b.subrange(i + 3, b.len() as int));
}

/// Standard base64 encoding (with padding) of the UTF-8 bytes of `s`.
pub fn base64_encode(s: &str) -> (r: String)
    ensures
        r@ == base64_of(s@),
{
    let bytes = s.as_bytes();
    let ghost b = bytes@;
    let mut buf: Vec<u8> = Vec::new();
    let mut i: usize = 0;
    proof {
        assert(b.subrange(0, b.len() as int) =~= b);
        assert(buf@ + base64_bytes(b) =~= base64_bytes(b));
    }
    while i < bytes.len()
        invariant
            bytes@ == b,
            i <= b.len(),
            buf@ + base64_bytes(b.subrange(i as int, b.len() as int)) == base64_bytes(b),
            forall|j: int| 0 <= j < buf@.len() ==> buf@[j] < 128,
        decreases b.len() - i,
    {
        let n = bytes.len() - i;
        let b0 = bytes[i] as u32;
        let b1: u32 = if n > 1 {
            bytes[i + 1] as u32
        } else {
            0
        };
        let b2: u32 = if n > 2 {
            bytes[i + 2] as u32
        } else {
            0
        };
        let triple = (b0 << 16) | (b1 << 8) | b2;
        assert(((triple >> 18) & 0x3F) == b0 / 4 && ((triple >> 12) & 0x3F) == (b0 % 4) * 16 + b1 / 16
            && ((triple >> 6) & 0x3F) == (b1 % 16) * 4 + b2 / 64 && (triple & 0x3F) == b2 % 64)
            by (bit_vector)
            requires
                b0 < 256,
                b1 < 256,
                b2 < 256,
                triple == (b0 << 16) | (b1 << 8) | b2,
        ;
        let ghost before = buf@;
        buf.push(b64_digit((triple >> 18) & 0x3F));
        buf.push(b64_digit((triple >> 12) & 0x3F));
        if n > 1 {
            buf.push(b64_digit((triple >> 6) & 0x3F));
        } else {
            buf.push(61);
        }
        if n > 2 {
            buf.push(b64_digit(triple & 0x3F));
        } else {
            buf.push(61);
        }
        proof {
            let rest = b.subrange(i as int, b.len() as int);
            if n > 2 {
                lemma_base64_step(b, i as int);
            } else {
                assert(b.subrange(i + n, b.len() as int) =~= Seq::<u8>::empty());
                assert(base64_bytes(rest) == buf@.subrange(before.len() as int, buf@.len() as int));
            }
            assert(buf@ =~= before + buf@.subrange(before.len() as int, buf@.len() as int));
        }
        if n > 3 {
            i = i + 3;
        } else {
            i = bytes.len();
        }
        proof {
            assert(b.subrange(i as int, b.len() as int) =~= if n > 3 {
                b.subrange(i as int, b.len() as int)
            } else {
                Seq::<u8>::empty()
            });
        }
    }
    proof {
        assert(b.subrange(b.len() as int, b.len() as int) =~= Seq::<u8>::empty());
        assert(buf@ =~= base64_bytes(b));
        assert(b == encode_utf8(s@));
    }
    ascii_string(buf)
}

/// The cursor of the `i`-th search result: base64 of `cursor:<i>`.
pub open spec fn cursor_text(i: nat) -> Seq<char> {
    base64_of("cursor:"@ + decimal(i))
}

fn cursor_for(i: usize) -> (r: String)
    ensures
        r@ == cursor_text(i as nat),
{
    let plain = message_with_position("cursor:", i);
    base64_encode(plain.as_str())
}

// ---------------------------------------------------------------------------
// Records
// ---------------------------------------------------------------------------

/// One catalogue record. The price is in minor currency units (cents).
pub struct ArticleRecord {
    pub ean: String,
    pub name: String,
    pub description: Option<String>,
    pub category_id: String,
    pub category_name: String,
    pub brand: String,
    pub image_url: Option<String>,
    pub price_amount: u64,
    pub price_currency: String,
}

/// (EAN, name, description, category id, category name, brand, image URL,
/// price in cents, currency).
pub type RecordView = (
    Seq<char>,
    Seq<char>,
    Option<Seq<char>>,
    Seq<char>,
    Seq<char>,
    Seq<char>,
    Option<Seq<char>>,
    u64,
    Seq<char>,
);

pub open spec fn record_view(r: ArticleRecord) -> RecordView {
    (
        r.ean@,
        r.name@,
        opt_view(r.description),
        r.category_id@,
        r.category_name@,
        r.brand@,
        opt_view(r.image_url),
        r.price_amount,
        r.price_currency@,
    )
}

fn clone_opt(o: &Option<String>) -> (r: Option<String>)
    ensures
        opt_view(r) == opt_view(*o),
{
    match o {
        Some(s) => Some(s.clone()),
        None => None,
    }
}

/// The mock catalogue: (EAN, name, description, category id, category name, brand, image URL, price in cents, currency).
pub open spec fn catalog_seed_table() -> Seq<RecordView> {
    seq![
        ("4012345678901"@, "EDEKA Bio Vollmilch 3,8%"@, Some("Frische Bio-Vollmilch, 1 Liter"@), "cat-milk"@, "Milchprodukte"@, "EDEKA Bio"@, Some("https://cdn.edeka.de/images/articles/4012345678901.jpg"@), 129, "EUR"@),
        ("4012345678902"@, "GUT&GÜNSTIG Toastbrot"@, Some("Toastbrot Weizen, 500g"@), "cat-bread"@, "Brot & Backwaren"@, "GUT&GÜNSTIG"@, Some("https://cdn.edeka.de/images/articles/4012345678902.jpg"@), 99, "EUR"@),
        ("4012345678903"@, "Coca-Cola 1,5L"@, Some("Erfrischungsgetränk, 1,5 Liter"@), "cat-beverage"@, "Getränke"@, "Coca-Cola"@, Some("https://cdn.edeka.de/images/articles/4012345678903.jpg"@), 149, "EUR"@),
        ("4012345678904"@, "EDEKA Lachsfilet 200g"@, Some("Tiefkühl-Lachsfilet, 200g"@), "cat-fish"@, "Fisch"@, "EDEKA"@, Some("https://cdn.edeka.de/images/articles/4012345678904.jpg"@), 499, "EUR"@),
        ("4012345678905"@, "EDEKA Äpfel Jonagold 1kg"@, Some("Frische Äpfel Jonagold, 1kg Beutel"@), "cat-fruit"@, "Obst & Gemüse"@, "EDEKA"@, Some("https://cdn.edeka.de/images/articles/4012345678905.jpg"@), 249, "EUR"@)
    ]
}

pub fn seed_records() -> (v: Vec<ArticleRecord>)
    ensures
        v@.map_values(|e: ArticleRecord| record_view(e)) == catalog_seed_table(),
{
    let mut v: Vec<ArticleRecord> = Vec::new();
    v.push(ArticleRecord {
        ean: "4012345678901".to_owned(),
        name: "EDEKA Bio Vollmilch 3,8%".to_owned(),
        description: Some("Frische Bio-Vollmilch, 1 Liter".to_owned()),
        category_id: "cat-milk".to_owned(),
        category_name: "Milchprodukte".to_owned(),
        brand: "EDEKA Bio".to_owned(),
        image_url: Some("https://cdn.edeka.de/images/articles/4012345678901.jpg".to_owned()),
        price_amount: 129,
        price_currency: "EUR".to_owned(),
    });
    v.push(ArticleRecord {
        ean: "4012345678902".to_owned(),
        name: "GUT&GÜNSTIG Toastbrot".to_owned(),
        description: Some("Toastbrot Weizen, 500g".to_owned()),
        category_id: "cat-bread".to_owned(),
        category_name: "Brot & Backwaren".to_owned(),
        brand: "GUT&GÜNSTIG".to_owned(),
        image_url: Some("https://cdn.edeka.de/images/articles/4012345678902.jpg".to_owned()),
        price_amount: 99,
        price_currency: "EUR".to_owned(),
    });
    v.push(ArticleRecord {
        ean: "4012345678903".to_owned(),
        name: "Coca-Cola 1,5L".to_owned(),
        description: Some("Erfrischungsgetränk, 1,5 Liter".to_owned()),
        category_id: "cat-beverage".to_owned(),
        category_name: "Getränke".to_owned(),
        brand: "Coca-Cola".to_owned(),
        image_url: Some("https://cdn.edeka.de/images/articles/4012345678903.jpg".to_owned()),
        price_amount: 149,
        price_currency: "EUR".to_owned(),
    });
    v.push(ArticleRecord {
        ean: "4012345678904".to_owned(),
        name: "EDEKA Lachsfilet 200g".to_owned(),
        description: Some("Tiefkühl-Lachsfilet, 200g".to_owned()),
        category_id: "cat-fish".to_owned(),
        category_name: "Fisch".to_owned(),
        brand: "EDEKA".to_owned(),
        image_url: Some("https://cdn.edeka.de/images/articles/4012345678904.jpg".to_owned()),
        price_amount: 499,
        price_currency: "EUR".to_owned(),
    });
    v.push(ArticleRecord {
        ean: "4012345678905".to_owned(),
        name: "EDEKA Äpfel Jonagold 1kg".to_owned(),
        description: Some("Frische Äpfel Jonagold, 1kg Beutel".to_owned()),
        category_id: "cat-fruit".to_owned(),
        category_name: "Obst & Gemüse".to_owned(),
        brand: "EDEKA".to_owned(),
        image_url: Some("https://cdn.edeka.de/images/articles/4012345678905.jpg".to_owned()),
        price_amount: 249,
        price_currency: "EUR".to_owned(),
    });
    assert(v@.map_values(|e: ArticleRecord| record_view(e)) =~= catalog_seed_table());
    v
}

// ---------------------------------------------------------------------------
// The store
// ---------------------------------------------------------------------------

/// The first record of `s` with EAN `ean`.
pub open spec fn record_for(s: Seq<RecordView>, ean: Seq<char>) -> Option<RecordView>
    decreases s.len(),
{
    if s.len() == 0 {
        None
    } else if s[0].0 == ean {
        Some(s[0])
    } else {
        record_for(s.drop_first(), ean)
    }
}

/// The article records, looked up by EAN.
pub struct DataStore {
    records: Vec<ArticleRecord>,
}

impl View for DataStore {
    type V = Seq<RecordView>;

    closed spec fn view(&self) -> Seq<RecordView> {
        self.records@.map_values(|e: ArticleRecord| record_view(e))
    }
}

/// No two records of `s` share an EAN.
pub open spec fn distinct_eans(s: Seq<RecordView>) -> bool {
    forall|i: int, j: int| 0 <= i < j < s.len() ==> #[trigger] s[i].0 != #[trigger] s[j].0
}

impl DataStore {
    /// Each EAN names at most one record.
    #[verifier::type_invariant]
    spec fn keyed_by_ean(self) -> bool {
        distinct_eans(self@)
    }

    /// A store holding the mock catalogue.
    pub fn with_seed_data() -> (r: Self)
        ensures
            r@ == catalog_seed_table(),
            distinct_eans(r@),
    {
        let records = seed_records();
        proof {
            reveal_strlit("4012345678901");
            reveal_strlit("4012345678902");
            reveal_strlit("4012345678903");
            reveal_strlit("4012345678904");
            reveal_strlit("4012345678905");
            let t = catalog_seed_table();
            assert forall|i: int, j: int| 0 <= i < j < t.len() implies #[trigger] t[i].0 != #[trigger] t[j].0 by {
                assert(t[i].0[12] != t[j].0[12]);
            }
        }
        DataStore { records }
    }

    /// The record for `ean`, if the store holds one.
    pub fn find(&self, ean: &str) -> (r: Option<&ArticleRecord>)
        ensures
            match r {
                Some(rec) => record_for(self@, ean@) == Some(record_view(*rec)),
                None => record_for(self@, ean@) is None,
            },
            r matches Some(rec) ==> (forall|i: int|
                0 <= i < self@.len() && #[trigger] self@[i].0 == ean@ ==> self@[i] == record_view(*rec)),
    {
        proof {
            use_type_invariant(self);
        }
        let key = ean.to_owned();
        let ghost s = self@;
        let mut i: usize = 0;
        assert(s.subrange(0, s.len() as int) =~= s);
        while i < self.records.len()
            invariant
                s == self@,
                distinct_eans(s),
                key@ == ean@,
                i <= s.len(),
                s.len() == self.records@.len(),
                record_for(s, ean@) == record_for(s.subrange(i as int, s.len() as int), ean@),
            decreases s.len() - i,
        {
            let ghost rest = s.subrange(i as int, s.len() as int);
            assert(rest[0] == record_view(self.records@[i as int]));
            if self.records[i].ean == key {
                assert(s[i as int].0 == ean@);
                return Some(&self.records[i]);
            }
            assert(rest.drop_first() =~= s.subrange(i + 1, s.len() as int));
            i = i + 1;
        }
        None
    }

    /// Whether the store holds a record for `ean`.
    pub fn contains_key(&self, ean: &str) -> (r: bool)
        ensures
            r == record_for(self@, ean@) is Some,
    {
        self.find(ean).is_some()
    }
}

impl Default for DataStore {
    fn default() -> (r: Self)
        ensures
            r@ == Seq::<RecordView>::empty(),
    {
        let r = DataStore { records: Vec::new() };
        assert(r@ =~= Seq::<RecordView>::empty());
        r
    }
}

// ---------------------------------------------------------------------------
// Entities
// ---------------------------------------------------------------------------

/// An article entity, keyed by EAN; its other fields resolve against a
/// `DataStore`.
pub struct Article {
    pub ean: String,
}

pub struct Category {
    pub id: String,
    pub name: String,
}

/// A price. The amount is in minor currency units (cents).
pub struct Price {
    pub amount: u64,
    pub currency: String,
    pub valid_from: Option<String>,
    pub valid_to: Option<String>,
}

/// The date from which catalogue prices are valid.
pub open spec fn price_valid_from() -> Seq<char> {
    "2025-01-01"@
}

impl Article {
    /// The article's name; empty where the store has no record for it.
    pub fn name(&self, store: &DataStore) -> (r: String)
        ensures
            r@ == match record_for(store@, self.ean@) {
                Some(v) => v.1,
                None => Seq::<char>::empty(),
            },
    {
        match store.find(self.ean.as_str()) {
            Some(rec) => rec.name.clone(),
            None => String::new(),
        }
    }

    pub fn description(&self, store: &DataStore) -> (r: Option<String>)
        ensures
            opt_view(r) == match record_for(store@, self.ean@) {
                Some(v) => v.2,
                None => None,
            },
    {
        match store.find(self.ean.as_str()) {
            Some(rec) => clone_opt(&rec.description),
            None => None,
        }
    }

    pub fn category(&self, store: &DataStore) -> (r: Option<Category>)
        ensures
            match r {
                Some(c) => record_for(store@, self.ean@) matches Some(v) && c.id@ == v.3
                    && c.name@ == v.4,
                None => record_for(store@, self.ean@) is None,
            },
    {
        match store.find(self.ean.as_str()) {
            Some(rec) => Some(Category { id: rec.category_id.clone(), name: rec.category_name.clone() }),
            None => None,
        }
    }

    /// The article's brand; empty where the store has no record for it.
    pub fn brand(&self, store: &DataStore) -> (r: String)
        ensures
            r@ == match record_for(store@, self.ean@) {
                Some(v) => v.5,
                None => Seq::<char>::empty(),
            },
    {
        match store.find(self.ean.as_str()) {
            Some(rec) => rec.brand.clone(),
            None => String::new(),
        }
    }

    pub fn image_url(&self, store: &DataStore) -> (r: Option<String>)
        ensures
            opt_view(r) == match record_for(store@, self.ean@) {
                Some(v) => v.6,
                None => None,
            },
    {
        match store.find(self.ean.as_str()) {
            Some(rec) => clone_opt(&rec.image_url),
            None => None,
        }
    }

    /// The article's price, valid from the catalogue date with no end date.
    pub fn price(&self, store: &DataStore) -> (r: Option<Price>)
        ensures
            match r {
                Some(p) => record_for(store@, self.ean@) matches Some(v) && p.amount == v.7
                    && p.currency@ == v.8 && opt_view(p.valid_from) == Some(price_valid_from())
                    && p.valid_to is None,
                None => record_for(store@, self.ean@) is None,
            },
    {
        match store.find(self.ean.as_str()) {
            Some(rec) => {
                let from = "2025-01-01".to_owned();
                Some(
                    Price {
                        amount: rec.price_amount,
                        currency: rec.price_currency.clone(),
                        valid_from: Some(from),
                        valid_to: None,
                    },
                )
            },
            None => None,
        }
    }

    /// Federation entity resolution: the article for `ean` where the store
    /// holds it.
    pub fn resolve_by_ean(ean: &str, store: &DataStore) -> (r: Option<Article>)
        ensures
            match r {
                Some(a) => a.ean@ == ean@ && record_for(store@, ean@) is Some,
                None => record_for(store@, ean@) is None,
            },
    {
        if store.contains_key(ean) {
            Some(Article { ean: ean.to_owned() })
        } else {
            None
        }
    }
}

// ---------------------------------------------------------------------------
// Listing and search
// ---------------------------------------------------------------------------

/// Criteria for listing articles; every criterion that is set must hold.
pub struct ArticleFilter {
    pub eans: Option<Vec<String>>,
    pub category: Option<String>,
    pub brand: Option<String>,
    pub search: Option<String>,
}

/// (EANs, category, brand, search text).
pub type FilterView = (
    Option<Seq<Seq<char>>>,
    Option<Seq<char>>,
    Option<Seq<char>>,
    Option<Seq<char>>,
);

pub open spec fn strings_view(v: Vec<String>) -> Seq<Seq<char>> {
    v@.map_values(|s: String| s@)
}

pub open spec fn filter_view(f: ArticleFilter) -> FilterView {
    (
        match f.eans {
            Some(v) => Some(strings_view(v)),
            None => None,
        },
        opt_view(f.category),
        opt_view(f.brand),
        opt_view(f.search),
    )
}

/// The search text `q` occurs, ignoring case, in the record's name or in its
/// description.
pub open spec fn text_matches(r: RecordView, q: Seq<char>) -> bool {
    contains_ignoring_case(r.1, q) || (r.2 matches Some(d) && contains_ignoring_case(d, q))
}

pub open spec fn matches_filter(r: RecordView, f: FilterView) -> bool {
    &&& (f.0 matches Some(eans) ==> eans.contains(r.0))
    &&& (f.1 matches Some(c) ==> contains_ignoring_case(r.4, c))
    &&& (f.2 matches Some(b) ==> contains_ignoring_case(r.5, b))
    &&& (f.3 matches Some(q) ==> text_matches(r, q))
}

/// Whether a listing with the optional filter `f` includes record `r`.
pub open spec fn listed(r: RecordView, f: Option<ArticleFilter>) -> bool {
    match f {
        Some(f) => matches_filter(r, filter_view(f)),
        None => true,
    }
}

/// The EANs of the records of `s` that `keep` accepts, in store order.
pub open spec fn selected_eans(s: Seq<RecordView>, keep: spec_fn(RecordView) -> bool) -> Seq<Seq<char>>
    decreases s.len(),
{
    if s.len() == 0 {
        Seq::empty()
    } else {
        let prior = selected_eans(s.drop_last(), keep);
        if keep(s.last()) {
            prior.push(s.last().0)
        } else {
            prior
        }
    }
}

/// The EANs of the records of `s` whose name or description contains `q`,
/// ignoring case, in store order.
pub open spec fn search_hits(s: Seq<RecordView>, q: Seq<char>) -> Seq<Seq<char>> {
    selected_eans(s, |v: RecordView| text_matches(v, q))
}

pub open spec fn article_eans(v: Seq<Article>) -> Seq<Seq<char>> {
    v.map_values(|a: Article| a.ean@)
}

fn text_match(rec: &ArticleRecord, q: &str) -> (r: bool)
    ensures
        r == text_matches(record_view(*rec), q@),
{
    if contains_ignore_case(rec.name.as_str(), q) {
        return true;
    }
    match &rec.description {
        Some(d) => contains_ignore_case(d.as_str(), q),
        None => false,
    }
}

fn ean_listed(eans: &Vec<String>, ean: &String) -> (r: bool)
    ensures
        r == strings_view(*eans).contains(ean@),
{
    let mut i: usize = 0;
    while i < eans.len()
        invariant
            i <= eans.len(),
            forall|j: int| 0 <= j < i ==> eans@[j]@ != ean@,
        decreases eans.len() - i,
    {
        if eans[i] == *ean {
            assert(strings_view(*eans)[i as int] == ean@);
            return true;
        }
        i = i + 1;
    }
    proof {
        if strings_view(*eans).contains(ean@) {
            let j = choose|j: int| 0 <= j < strings_view(*eans).len() && strings_view(*eans)[j] == ean@;
            assert(eans@[j]@ == ean@);
        }
    }
    false
}

fn record_matches(rec: &ArticleRecord, f: &ArticleFilter) -> (r: bool)
    ensures
        r == matches_filter(record_view(*rec), filter_view(*f)),
{
    if let Some(eans) = &f.eans {
        if !ean_listed(eans, &rec.ean) {
            return false;
        }
    }
    if let Some(c) = &f.category {
        if !contains_ignore_case(rec.category_name.as_str(), c.as_str()) {
            return false;
        }
    }
    if let Some(b) = &f.brand {
        if !contains_ignore_case(rec.brand.as_str(), b.as_str()) {
            return false;
        }
    }
    if let Some(q) = &f.search {
        if !text_match(rec, q.as_str()) {
            return false;
        }
    }
    true
}

/// One search hit with its pagination cursor.
pub struct ArticleEdge {
    pub node: Article,
    pub cursor: String,
}

pub struct ArticleConnection {
    pub edges: Vec<ArticleEdge>,
    pub total_count: usize,
}

/// The number of search hits returned for a requested page size: at least
/// one, at most a hundred.
pub open spec fn page_limit(first: nat) -> nat {
    if first < 1 {
        1
    } else if first > 100 {
        100
    } else {
        first
    }
}

/// How many of `hits` search hits one page returns for page size `first`.
pub open spec fn page_size(hits: nat, first: nat) -> nat {
    if hits < page_limit(first) {
        hits
    } else {
        page_limit(first)
    }
}

/// The root of the catalogue queries.
pub struct QueryRoot;

impl QueryRoot {
    /// The article for `ean` where the store holds it.
    pub fn article(&self, store: &DataStore, ean: &str) -> (r: Option<Article>)
        ensures
            match r {
                Some(a) => a.ean@ == ean@ && record_for(store@, ean@) is Some,
                None => record_for(store@, ean@) is None,
            },
    {
        Article::resolve_by_ean(ean, store)
    }

    /// The articles that match `filter` (all of them without one), in store
    /// order.
    pub fn articles(&self, store: &DataStore, filter: Option<ArticleFilter>) -> (r: Vec<Article>)
        ensures
            article_eans(r@) == selected_eans(store@, |v: RecordView| listed(v, filter)),
            article_eans(r@) == filtered_eans(store@, filter),
    {
        let ghost keep = |v: RecordView| listed(v, filter);
        let ghost s = store@;
        let mut out: Vec<Article> = Vec::new();
        let mut i: usize = 0;
        while i < store.records.len()
            invariant
                s == store@,
                s.len() == store.records@.len(),
                i <= s.len(),
                keep == |v: RecordView| listed(v, filter),
                article_eans(out@) == selected_eans(s.take(i as int), keep),
            decreases s.len() - i,
        {
            let rec = &store.records[i];
            let keep_it = match &filter {
                Some(f) => record_matches(rec, f),
                None => true,
            };
            proof {
                assert(s.take(i + 1).drop_last() =~= s.take(i as int));
                assert(s.take(i + 1).last() == record_view(*rec));
            }
            if keep_it {
                out.push(Article { ean: rec.ean.clone() });
            }
            assert(article_eans(out@) =~= selected_eans(s.take(i + 1), keep));
            i = i + 1;
        }
        assert(s.take(s.len() as int) =~= s);
        assert(filter_keep(filter) =~= keep);
        out
    }

    /// Articles whose name or description contains `query` (ignoring case),
    /// in store order, at most `page_limit(first)` of them; each carries the
    /// base64 cursor of its position.
    pub fn search(&self, store: &DataStore, query: &str, first: usize) -> (r: ArticleConnection)
        ensures
            r.edges@.len() == page_size(search_hits(store@, query@).len(), first as nat),
            r.total_count == r.edges@.len(),
            forall|j: int| 0 <= j < r.edges@.len() ==> #[trigger] r.edges@[j].node.ean@ == search_hits(store@, query@)[j],
            forall|j: int| 0 <= j < r.edges@.len() ==> #[trigger] r.edges@[j].cursor@ == cursor_text(j as nat),
    {
        let ghost s = store@;
        let limit: usize = if first < 1 {
            1
        } else if first > 100 {
            100
        } else {
            first
        };
        let mut edges: Vec<ArticleEdge> = Vec::new();
        let mut i: usize = 0;
        while i < store.records.len()
            invariant
                s == store@,
                s.len() == store.records@.len(),
                i <= s.len(),
                limit == page_limit(first as nat),
                edges@.len() <= limit,
                edges@.len() == page_size(search_hits(s.take(i as int), query@).len(), first as nat),
                forall|j: int| 0 <= j < edges@.len() ==> #[trigger] edges@[j].node.ean@ == search_hits(s.take(i as int), query@)[j],
                forall|j: int| 0 <= j < edges@.len() ==> #[trigger] edges@[j].cursor@ == cursor_text(j as nat),
            decreases s.len() - i,
        {
            let rec = &store.records[i];
            let hit = text_match(rec, query);
            let ghost prior = search_hits(s.take(i as int), query@);
            let ghost old_edges = edges@;
            proof {
                assert(s.take(i + 1).drop_last() =~= s.take(i as int));
                assert(s.take(i + 1).last() == record_view(*rec));
                if hit {
                    assert(search_hits(s.take(i + 1), query@) == prior.push(record_view(*rec).0));
                } else {
                    assert(search_hits(s.take(i + 1), query@) == prior);
                }
            }
            if hit && edges.len() < limit {
                let cursor = cursor_for(edges.len());
                edges.push(ArticleEdge { node: Article { ean: rec.ean.clone() }, cursor });
                proof {
                    let hits = search_hits(s.take(i + 1), query@);
                    assert forall|j: int| 0 <= j < edges@.len() implies #[trigger] edges@[j].node.ean@ == hits[j] by {
                        if j < old_edges.len() {
                            assert(edges@[j] == old_edges[j]);
                        }
                    }
                    assert forall|j: int| 0 <= j < edges@.len() implies #[trigger] edges@[j].cursor@ == cursor_text(j as nat) by {
                        if j < old_edges.len() {
                            assert(edges@[j] == old_edges[j]);
                        }
                    }
                }
            }
            i = i + 1;
        }
        proof {
            assert(s.take(i as int) =~= s);
            assert(search_hits(s.take(i as int), query@) == search_hits(store@, query@));
        }
        let total_count = edges.len();
        ArticleConnection { edges, total_count }
    }
}

// ---------------------------------------------------------------------------
// Laws
// ---------------------------------------------------------------------------

proof fn lemma_selected_eans_agree(
    s: Seq<RecordView>,
    keep1: spec_fn(RecordView) -> bool,
    keep2: spec_fn(RecordView) -> bool,
)
    requires
        forall|v: RecordView| #[trigger] keep1(v) == keep2(v),
    ensures
        selected_eans(s, keep1) == selected_eans(s, keep2),
    decreases s.len(),
{
    if s.len() > 0 {
        lemma_selected_eans_agree(s.drop_last(), keep1, keep2);
    }
}

proof fn lemma_selected_from(s: Seq<RecordView>, keep: spec_fn(RecordView) -> bool, k: int)
    requires
        0 <= k < selected_eans(s, keep).len(),
    ensures
        exists|j: int| 0 <= j < s.len() && keep(s[j]) && #[trigger] s[j].0 == selected_eans(s, keep)[k],
    decreases s.len(),
{
    let prior = selected_eans(s.drop_last(), keep);
    if k < prior.len() {
        lemma_selected_from(s.drop_last(), keep, k);
        let j = choose|j: int| 0 <= j < s.drop_last().len() && keep(s.drop_last()[j]) && #[trigger] s.drop_last()[j].0 == prior[k];
        assert(s[j] == s.drop_last()[j]);
    } else {
        assert(keep(s.last()));
        assert(s[s.len() - 1].0 == selected_eans(s, keep)[k]);
    }
}

proof fn lemma_selected_includes(s: Seq<RecordView>, keep: spec_fn(RecordView) -> bool, j: int)
    requires
        0 <= j < s.len(),
        keep(s[j]),
    ensures
        selected_eans(s, keep).contains(s[j].0),
    decreases s.len(),
{
    let prior = selected_eans(s.drop_last(), keep);
    if j < s.len() - 1 {
        lemma_selected_includes(s.drop_last(), keep, j);
        let i = choose|i: int| 0 <= i < prior.len() && prior[i] == s.drop_last()[j].0;
        if keep(s.last()) {
            assert(selected_eans(s, keep)[i] == prior[i]);
        }
    } else {
        assert(selected_eans(s, keep)[prior.len() as int] == s[j].0);
    }
}

/// The test a listing with the optional filter `f` applies to each record.
pub open spec fn filter_keep(f: Option<ArticleFilter>) -> spec_fn(RecordView) -> bool {
    |v: RecordView| listed(v, f)
}

/// The EANs a listing with the optional filter `f` returns, in store order.
pub open spec fn filtered_eans(s: Seq<RecordView>, f: Option<ArticleFilter>) -> Seq<Seq<char>> {
    selected_eans(s, filter_keep(f))
}

/// The criteria of a filter, each checked where it is set: the article's
/// EAN is one of the filter's EANs; its category and its brand contain the
/// filter's category and brand, ignoring case; its name or its description
/// contains the search text, ignoring case.
pub open spec fn meets_criteria(r: RecordView, f: ArticleFilter) -> bool {
    &&& (f.eans matches Some(es) ==> strings_view(es).contains(r.0))
    &&& (f.category matches Some(c) ==> contains_ignoring_case(r.4, c@))
    &&& (f.brand matches Some(b) ==> contains_ignoring_case(r.5, b@))
    &&& (f.search matches Some(q) ==> (contains_ignoring_case(r.1, q@) || (r.2 matches Some(d)
        && contains_ignoring_case(d, q@))))
}

/// Each EAN a filtered listing returns is that of an article of the store
/// that meets every criterion of the filter that is set; in particular, with
/// an EAN list, each listed EAN is on it.
pub proof fn lemma_listed_meets_criteria(s: Seq<RecordView>, f: ArticleFilter, k: int)
    requires
        0 <= k < filtered_eans(s, Some(f)).len(),
    ensures
        exists|j: int| #![trigger s[j]] 0 <= j < s.len() && s[j].0 == filtered_eans(s, Some(f))[k] && meets_criteria(s[j], f),
        f.eans matches Some(es) ==> strings_view(es).contains(filtered_eans(s, Some(f))[k]),
{
    lemma_selected_from(s, filter_keep(Some(f)), k);
    let j = choose|j: int| 0 <= j < s.len() && filter_keep(Some(f))(s[j]) && #[trigger] s[j].0
        == filtered_eans(s, Some(f))[k];
    assert(listed(s[j], Some(f)));
    assert(meets_criteria(s[j], f));
}

/// Every article of the store that meets every criterion of the filter that
/// is set is listed.
pub proof fn lemma_criteria_met_listed(s: Seq<RecordView>, f: ArticleFilter, j: int)
    requires
        0 <= j < s.len(),
        meets_criteria(s[j], f),
    ensures
        filtered_eans(s, Some(f)).contains(s[j].0),
{
    lemma_selected_includes(s, filter_keep(Some(f)), j);
}

/// A search finds the articles, in the same order, that a listing filtered
/// by the same search text alone returns.
pub proof fn lemma_search_matches_listing(s: Seq<RecordView>, f: ArticleFilter, q: Seq<char>)
    requires
        f.eans is None,
        f.category is None,
        f.brand is None,
        opt_view(f.search) == Some(q),
    ensures
        selected_eans(s, |v: RecordView| listed(v, Some(f))) == search_hits(s, q),
{
    lemma_selected_eans_agree(s, |v: RecordView| listed(v, Some(f)), |v: RecordView| text_matches(v, q));
}

/// A listing without a filter returns every article, in store order.
pub proof fn lemma_unfiltered_lists_all(s: Seq<RecordView>)
    ensures
        selected_eans(s, |v: RecordView| listed(v, None)) == s.map_values(|v: RecordView| v.0),
    decreases s.len(),
{
    if s.len() > 0 {
        lemma_unfiltered_lists_all(s.drop_last());
        assert(s.drop_last().map_values(|v: RecordView| v.0).push(s.last().0) =~= s.map_values(
            |v: RecordView| v.0,
        ));
    }
}

/// A search page holds at most a hundred hits, and at least one whenever
/// there is a hit.
pub proof fn lemma_page_bounds(hits: nat, first: nat)
    ensures
        page_size(hits, first) <= 100,
        page_size(hits, first) <= hits,
        hits > 0 ==> page_size(hits, first) >= 1,
{
}

/// Base64 turns every started group of three bytes into four characters.
pub proof fn lemma_base64_length(b: Seq<u8>)
    ensures
        base64_bytes(b).len() == 4 * ((b.len() + 2) / 3),
    decreases b.len(),
{
    if b.len() >= 3 {
        lemma_base64_length(b.subrange(3, b.len() as int));
    }
}

} // verus!
