//! Downstream subgraph clients (PIM, price, ERP): shared wire types, the
//! mapping of a GraphQL response to a result, and the stub stores that
//! answer by MATNR when a client runs in stub mode.
use std::time::Duration;
use vstd::prelude::*;

use crate::catalog::catalog_seed_table;
use crate::id_translation::{MatnrView, seed_table, upserted};
use crate::keyed_store::KeyedStore;
use crate::text::opt_view;

verus! {

// ---------------------------------------------------------------------------
// Shared types
// ---------------------------------------------------------------------------

/// `reqwest::Error`, a failed HTTP exchange; opaque to Verus.
#[verifier::external_type_specification]
#[verifier::external_body]
pub struct ExReqwestError(reqwest::Error);

/// `Duration::from_secs` from std: the duration of `secs` whole seconds.
/// Verus sees `Duration` as opaque, so no clause states its length.
pub assume_specification[ core::time::Duration::from_secs ](secs: u64) -> Duration;

/// Per-subgraph configuration.
pub struct SubgraphConfig {
    pub base_url: String,
    pub timeout: Duration,
    /// When true, answer from seed data instead of making HTTP calls.
    pub stub_mode: bool,
}

/// The base URL a default configuration points at.
pub open spec fn default_base_url() -> Seq<char> {
    "http://localhost:4000"@
}

impl Default for SubgraphConfig {
    /// A local subgraph with a five-second timeout, in stub mode.
    fn default() -> (r: Self)
        ensures
            r.base_url@ == default_base_url(),
            r.stub_mode,
    {
        SubgraphConfig {
            base_url: "http://localhost:4000".to_owned(),
            timeout: Duration::from_secs(5),
            stub_mode: true,
        }
    }
}

/// The GraphQL envelope of a subgraph response.
pub struct GraphQlResponse<T> {
    pub data: Option<T>,
    pub errors: Option<Vec<GraphQlError>>,
}

pub struct GraphQlError {
    pub message: String,
}

pub enum SubgraphError {
    /// The HTTP request failed.
    Http(reqwest::Error),
    /// The subgraph answered with errors.
    GraphQl(Vec<GraphQlError>),
    /// The subgraph answered without data, or the stub store has no entry.
    NullData,
    Timeout(Duration),
}

/// The data of a subgraph response, or `NullData` where it carries none.
pub fn response_data<T>(resp: GraphQlResponse<T>) -> (r: Result<T, SubgraphError>)
    ensures
        match resp.data {
            Some(d) => r == Ok::<T, SubgraphError>(d),
            None => r matches Err(SubgraphError::NullData),
        },
{
    match resp.data {
        Some(d) => Ok(d),
        None => Err(SubgraphError::NullData),
    }
}

/// What a client call resolves to before any network traffic.
pub enum Fetch<T> {
    /// Answered locally (stub mode).
    Done(Result<T, SubgraphError>),
    /// The subgraph has to be asked over HTTP.
    Remote,
}

/// The store `m` after inserting each record of `t` in order under its key.
pub open spec fn loaded<W>(m: Map<Seq<char>, W>, t: Seq<W>, key: spec_fn(W) -> Seq<char>) -> Map<Seq<char>, W>
    decreases t.len(),
{
    if t.len() == 0 {
        m
    } else {
        loaded(m, t.drop_last(), key).insert(key(t.last()), t.last())
    }
}

// ---------------------------------------------------------------------------
// PIM
// ---------------------------------------------------------------------------

/// Article master data from the PIM subgraph.
pub struct PimArticle {
    pub ean: String,
    pub matnr: String,
    pub name: String,
    pub description: Option<String>,
    pub category_id: String,
    pub category_name: String,
    pub brand: String,
    pub image_url: Option<String>,
}

fn clone_opt(o: &Option<String>) -> (r: Option<String>)
    ensures
        r == *o,
{
    match o {
        Some(s) => Some(s.clone()),
        None => None,
    }
}

impl Clone for PimArticle {
    fn clone(&self) -> (r: Self)
        ensures
            r == *self,
    {
        PimArticle {
            ean: self.ean.clone(),
            matnr: self.matnr.clone(),
            name: self.name.clone(),
            description: clone_opt(&self.description),
            category_id: self.category_id.clone(),
            category_name: self.category_name.clone(),
            brand: self.brand.clone(),
            image_url: clone_opt(&self.image_url),
        }
    }
}

/// (EAN, MATNR, name, description, category id, category name, brand,
/// image URL).
pub type PimArticleView = (
    Seq<char>,
    Seq<char>,
    Seq<char>,
    Option<Seq<char>>,
    Seq<char>,
    Seq<char>,
    Seq<char>,
    Option<Seq<char>>,
);

pub open spec fn pim_article_view(a: PimArticle) -> PimArticleView {
    (
        a.ean@,
        a.matnr@,
        a.name@,
        opt_view(a.description),
        a.category_id@,
        a.category_name@,
        a.brand@,
        opt_view(a.image_url),
    )
}

/// The `data` of a PIM article query.
pub struct PimQueryData {
    pub article: PimArticle,
}

/// Stub PIM articles: (EAN, MATNR, name, description, category id, category name, brand, image URL).
pub open spec fn pim_seed_table() -> Seq<PimArticleView> {
    seq![
        ("4012345678901"@, "000000000001000001"@, "EDEKA Bio Vollmilch 3,8%"@, Some("Frische Bio-Vollmilch, 1 Liter"@), "cat-milk"@, "Milchprodukte"@, "EDEKA Bio"@, Some("https://cdn.edeka.de/images/articles/4012345678901.jpg"@)),
        ("4012345678902"@, "000000000001000002"@, "GUT&GÜNSTIG Toastbrot"@, Some("Toastbrot Weizen, 500g"@), "cat-bread"@, "Brot & Backwaren"@, "GUT&GÜNSTIG"@, Some("https://cdn.edeka.de/images/articles/4012345678902.jpg"@)),
        ("4012345678903"@, "000000000001000003"@, "Coca-Cola 1,5L"@, Some("Erfrischungsgetränk, 1,5 Liter"@), "cat-beverage"@, "Getränke"@, "Coca-Cola"@, Some("https://cdn.edeka.de/images/articles/4012345678903.jpg"@)),
        ("4012345678904"@, "000000000001000004"@, "EDEKA Lachsfilet 200g"@, Some("Tiefkühl-Lachsfilet, 200g"@), "cat-fish"@, "Fisch"@, "EDEKA"@, Some("https://cdn.edeka.de/images/articles/4012345678904.jpg"@)),
        ("4012345678905"@, "000000000001000005"@, "EDEKA Äpfel Jonagold 1kg"@, Some("Frische Äpfel Jonagold, 1kg Beutel"@), "cat-fruit"@, "Obst & Gemüse"@, "EDEKA"@, Some("https://cdn.edeka.de/images/articles/4012345678905.jpg"@))
    ]
}

pub fn pim_seed_articles() -> (v: Vec<PimArticle>)
    ensures
        v@.map_values(|e: PimArticle| pim_article_view(e)) == pim_seed_table(),
{
    let mut v: Vec<PimArticle> = Vec::new();
    v.push(PimArticle {
        ean: "4012345678901".to_owned(),
        matnr: "000000000001000001".to_owned(),
        name: "EDEKA Bio Vollmilch 3,8%".to_owned(),
        description: Some("Frische Bio-Vollmilch, 1 Liter".to_owned()),
        category_id: "cat-milk".to_owned(),
        category_name: "Milchprodukte".to_owned(),
        brand: "EDEKA Bio".to_owned(),
        image_url: Some("https://cdn.edeka.de/images/articles/4012345678901.jpg".to_owned()),
    });
    v.push(PimArticle {
        ean: "4012345678902".to_owned(),
        matnr: "000000000001000002".to_owned(),
        name: "GUT&GÜNSTIG Toastbrot".to_owned(),
        description: Some("Toastbrot Weizen, 500g".to_owned()),
        category_id: "cat-bread".to_owned(),
        category_name: "Brot & Backwaren".to_owned(),
        brand: "GUT&GÜNSTIG".to_owned(),
        image_url: Some("https://cdn.edeka.de/images/articles/4012345678902.jpg".to_owned()),
    });
    v.push(PimArticle {
        ean: "4012345678903".to_owned(),
        matnr: "000000000001000003".to_owned(),
        name: "Coca-Cola 1,5L".to_owned(),
        description: Some("Erfrischungsgetränk, 1,5 Liter".to_owned()),
        category_id: "cat-beverage".to_owned(),
        category_name: "Getränke".to_owned(),
        brand: "Coca-Cola".to_owned(),
        image_url: Some("https://cdn.edeka.de/images/articles/4012345678903.jpg".to_owned()),
    });
    v.push(PimArticle {
        ean: "4012345678904".to_owned(),
        matnr: "000000000001000004".to_owned(),
        name: "EDEKA Lachsfilet 200g".to_owned(),
        description: Some("Tiefkühl-Lachsfilet, 200g".to_owned()),
        category_id: "cat-fish".to_owned(),
        category_name: "Fisch".to_owned(),
        brand: "EDEKA".to_owned(),
        image_url: Some("https://cdn.edeka.de/images/articles/4012345678904.jpg".to_owned()),
    });
    v.push(PimArticle {
        ean: "4012345678905".to_owned(),
        matnr: "000000000001000005".to_owned(),
        name: "EDEKA Äpfel Jonagold 1kg".to_owned(),
        description: Some("Frische Äpfel Jonagold, 1kg Beutel".to_owned()),
        category_id: "cat-fruit".to_owned(),
        category_name: "Obst & Gemüse".to_owned(),
        brand: "EDEKA".to_owned(),
        image_url: Some("https://cdn.edeka.de/images/articles/4012345678905.jpg".to_owned()),
    });
    assert(v@.map_values(|e: PimArticle| pim_article_view(e)) =~= pim_seed_table());
    v
}

/// The GraphQL document that asks the PIM subgraph for an article.
pub open spec fn pim_article_document() -> Seq<char> {
    "query($matnr: String!) { article(matnr: $matnr) { ean matnr name description categoryId categoryName brand imageUrl } }"@
}

/// Client of the PIM subgraph.
pub struct PimClient {
    config: SubgraphConfig,
    stub_store: KeyedStore<PimArticle>,
}

impl PimClient {
    /// The stub articles by MATNR.
    pub closed spec fn stub_view(&self) -> Map<Seq<char>, PimArticleView> {
        self.stub_store.view().map_values(|a: PimArticle| pim_article_view(a))
    }

    pub closed spec fn wf(&self) -> bool {
        &&& self.stub_store.wf()
        &&& forall|k: Seq<char>| #[trigger] self.stub_store.view().contains_key(k)
            ==> self.stub_store.view()[k].matnr@ == k
    }

    pub closed spec fn settings(&self) -> SubgraphConfig {
        self.config
    }

    /// A client whose stub store holds the seed articles by MATNR.
    pub fn new(config: SubgraphConfig) -> (r: Self)
        ensures
            r.wf(),
            r.settings() == config,
            r.stub_view() == loaded(Map::empty(), pim_seed_table(), |v: PimArticleView| v.1),
    {
        let mut store: KeyedStore<PimArticle> = KeyedStore::new();
        let items = pim_seed_articles();
        let ghost t = pim_seed_table();
        let mut i: usize = 0;
        while i < items.len()
            invariant
                store.wf(),
                forall|k: Seq<char>| #[trigger] store.view().contains_key(k) ==> store.view()[k].matnr@ == k,
                i <= items@.len(),
                items@.map_values(|e: PimArticle| pim_article_view(e)) == t,
                store.view().map_values(|a: PimArticle| pim_article_view(a)) == loaded(
                    Map::empty(),
                    t.take(i as int),
                    |v: PimArticleView| v.1,
                ),
            decreases items@.len() - i,
        {
            let item = items[i].clone();
            let ghost before = store.view();
            proof {
                assert(t.take(i + 1).drop_last() =~= t.take(i as int));
                assert(t.take(i + 1).last() == pim_article_view(item));
            }
            store.insert(item.matnr.clone(), item);
            assert(store.view().map_values(|a: PimArticle| pim_article_view(a)) =~= before.map_values(
                |a: PimArticle| pim_article_view(a),
            ).insert(item.matnr@, pim_article_view(item)));
            i += 1;
        }
        proof {
            assert(t.take(items@.len() as int) =~= t);
        }
        PimClient { config, stub_store: store }
    }

    /// Fetch article data by MATNR: in stub mode from the stub store
    /// (`NullData` for an unknown MATNR), otherwise over HTTP.
    pub fn get_article(&self, matnr: &str) -> (r: Fetch<PimArticle>)
        requires
            self.wf(),
        ensures
            self.settings().stub_mode ==> match r {
                Fetch::Done(Ok(a)) => self.stub_view().contains_key(matnr@) && pim_article_view(a)
                    == self.stub_view()[matnr@],
                Fetch::Done(Err(e)) => !self.stub_view().contains_key(matnr@) && e is NullData,
                Fetch::Remote => false,
            },
            !self.settings().stub_mode ==> r is Remote,
    {
        if self.config.stub_mode {
            match self.stub_store.get(matnr) {
                Some(a) => Fetch::Done(Ok(a.clone())),
                None => Fetch::Done(Err(SubgraphError::NullData)),
            }
        } else {
            Fetch::Remote
        }
    }

    /// The GraphQL document sent to the PIM subgraph.
    pub fn article_document() -> (r: &'static str)
        ensures
            r@ == pim_article_document(),
    {
        "query($matnr: String!) { article(matnr: $matnr) { ean matnr name description categoryId categoryName brand imageUrl } }"
    }

    /// The article carried by a PIM response.
    pub fn article_from_response(resp: GraphQlResponse<PimQueryData>) -> (r: Result<PimArticle, SubgraphError>)
        ensures
            match resp.data {
                Some(d) => r == Ok::<PimArticle, SubgraphError>(d.article),
                None => r matches Err(SubgraphError::NullData),
            },
    {
        match response_data(resp) {
            Ok(d) => Ok(d.article),
            Err(e) => Err(e),
        }
    }
}

// ---------------------------------------------------------------------------
// price
// ---------------------------------------------------------------------------

/// A price from the price subgraph. The amount is in minor currency units
/// (cents).
pub struct PriceData {
    pub matnr: String,
    pub amount: u64,
    pub currency: String,
    pub valid_from: Option<String>,
    pub valid_to: Option<String>,
}

impl Clone for PriceData {
    fn clone(&self) -> (r: Self)
        ensures
            r == *self,
    {
        PriceData {
            matnr: self.matnr.clone(),
            amount: self.amount,
            currency: self.currency.clone(),
            valid_from: clone_opt(&self.valid_from),
            valid_to: clone_opt(&self.valid_to),
        }
    }
}

/// (MATNR, amount in cents, currency, valid from, valid to).
pub type PriceDataView = (Seq<char>, u64, Seq<char>, Option<Seq<char>>, Option<Seq<char>>);

pub open spec fn price_data_view(a: PriceData) -> PriceDataView {
    (a.matnr@, a.amount, a.currency@, opt_view(a.valid_from), opt_view(a.valid_to))
}

/// The `data` of a price query.
pub struct PriceQueryData {
    pub price: PriceData,
}

/// Stub prices: (MATNR, amount in cents, currency, valid from, valid to).
pub open spec fn price_seed_table() -> Seq<PriceDataView> {
    seq![
        ("000000000001000001"@, 129, "EUR"@, Some("2025-01-01"@), None::<Seq<char>>),
        ("000000000001000002"@, 99, "EUR"@, Some("2025-01-01"@), None::<Seq<char>>),
        ("000000000001000003"@, 149, "EUR"@, Some("2025-01-01"@), None::<Seq<char>>),
        ("000000000001000004"@, 499, "EUR"@, Some("2025-01-01"@), None::<Seq<char>>),
        ("000000000001000005"@, 249, "EUR"@, Some("2025-01-01"@), None::<Seq<char>>)
    ]
}

pub fn price_seed_data() -> (v: Vec<PriceData>)
    ensures
        v@.map_values(|e: PriceData| price_data_view(e)) == price_seed_table(),
{
    let mut v: Vec<PriceData> = Vec::new();
    v.push(PriceData {
        matnr: "000000000001000001".to_owned(),
        amount: 129,
        currency: "EUR".to_owned(),
        valid_from: Some("2025-01-01".to_owned()),
        valid_to: None,
    });
    v.push(PriceData {
        matnr: "000000000001000002".to_owned(),
        amount: 99,
        currency: "EUR".to_owned(),
        valid_from: Some("2025-01-01".to_owned()),
        valid_to: None,
    });
    v.push(PriceData {
        matnr: "000000000001000003".to_owned(),
        amount: 149,
        currency: "EUR".to_owned(),
        valid_from: Some("2025-01-01".to_owned()),
        valid_to: None,
    });
    v.push(PriceData {
        matnr: "000000000001000004".to_owned(),
        amount: 499,
        currency: "EUR".to_owned(),
        valid_from: Some("2025-01-01".to_owned()),
        valid_to: None,
    });
    v.push(PriceData {
        matnr: "000000000001000005".to_owned(),
        amount: 249,
        currency: "EUR".to_owned(),
        valid_from: Some("2025-01-01".to_owned()),
        valid_to: None,
    });
    assert(v@.map_values(|e: PriceData| price_data_view(e)) =~= price_seed_table());
    v
}

/// The GraphQL document sent to the price subgraph.
pub open spec fn price_document() -> Seq<char> {
    "query($matnr: String!) { price(matnr: $matnr) { matnr amount currency validFrom validTo } }"@
}

/// Client of the price subgraph.
pub struct PriceClient {
    config: SubgraphConfig,
    stub_store: KeyedStore<PriceData>,
}

impl PriceClient {
    /// The stub records by MATNR.
    pub closed spec fn stub_view(&self) -> Map<Seq<char>, PriceDataView> {
        self.stub_store.view().map_values(|a: PriceData| price_data_view(a))
    }

    pub closed spec fn wf(&self) -> bool {
        &&& self.stub_store.wf()
        &&& forall|k: Seq<char>| #[trigger] self.stub_store.view().contains_key(k)
            ==> self.stub_store.view()[k].matnr@ == k
    }

    pub closed spec fn settings(&self) -> SubgraphConfig {
        self.config
    }

    /// A client whose stub store holds the seed records by MATNR.
    pub fn new(config: SubgraphConfig) -> (r: Self)
        ensures
            r.wf(),
            r.settings() == config,
            r.stub_view() == loaded(Map::empty(), price_seed_table(), |v: PriceDataView| v.0),
    {
        let mut store: KeyedStore<PriceData> = KeyedStore::new();
        let items = price_seed_data();
        let ghost t = price_seed_table();
        let mut i: usize = 0;
        while i < items.len()
            invariant
                store.wf(),
                forall|k: Seq<char>| #[trigger] store.view().contains_key(k) ==> store.view()[k].matnr@ == k,
                i <= items@.len(),
                items@.map_values(|e: PriceData| price_data_view(e)) == t,
                store.view().map_values(|a: PriceData| price_data_view(a)) == loaded(
                    Map::empty(),
                    t.take(i as int),
                    |v: PriceDataView| v.0,
                ),
            decreases items@.len() - i,
        {
            let item = items[i].clone();
            let ghost before = store.view();
            proof {
                assert(t.take(i + 1).drop_last() =~= t.take(i as int));
                assert(t.take(i + 1).last() == price_data_view(item));
            }
            store.insert(item.matnr.clone(), item);
            assert(store.view().map_values(|a: PriceData| price_data_view(a)) =~= before.map_values(
                |a: PriceData| price_data_view(a),
            ).insert(item.matnr@, price_data_view(item)));
            i += 1;
        }
        proof {
            assert(t.take(items@.len() as int) =~= t);
        }
        PriceClient { config, stub_store: store }
    }

    /// Fetch a price by MATNR: in stub mode from the stub store (`NullData` for an unknown MATNR), otherwise over HTTP.
    pub fn get_price(&self, matnr: &str) -> (r: Fetch<PriceData>)
        requires
            self.wf(),
        ensures
            self.settings().stub_mode ==> match r {
                Fetch::Done(Ok(a)) => self.stub_view().contains_key(matnr@) && price_data_view(a)
                    == self.stub_view()[matnr@],
                Fetch::Done(Err(e)) => !self.stub_view().contains_key(matnr@) && e is NullData,
                Fetch::Remote => false,
            },
            !self.settings().stub_mode ==> r is Remote,
    {
        if self.config.stub_mode {
            match self.stub_store.get(matnr) {
                Some(a) => Fetch::Done(Ok(a.clone())),
                None => Fetch::Done(Err(SubgraphError::NullData)),
            }
        } else {
            Fetch::Remote
        }
    }

    /// The GraphQL document sent to the price subgraph.
    pub fn price_query() -> (r: &'static str)
        ensures
            r@ == price_document(),
    {
        "query($matnr: String!) { price(matnr: $matnr) { matnr amount currency validFrom validTo } }"
    }

    /// The record carried by a price response.
    pub fn price_from_response(resp: GraphQlResponse<PriceQueryData>) -> (r: Result<PriceData, SubgraphError>)
        ensures
            match resp.data {
                Some(d) => r == Ok::<PriceData, SubgraphError>(d.price),
                None => r matches Err(SubgraphError::NullData),
            },
    {
        match response_data(resp) {
            Ok(d) => Ok(d.price),
            Err(e) => Err(e),
        }
    }
}

// ---------------------------------------------------------------------------
// ERP
// ---------------------------------------------------------------------------

/// Plant and stock data from the ERP (Lunar) subgraph. The available stock
/// is in thousandths of the base unit.
pub struct LunarData {
    pub matnr: String,
    pub plant: String,
    pub storage_location: String,
    pub available_stock: Option<u64>,
    pub base_unit: String,
    pub sales_org: String,
    pub distribution_channel: String,
}

impl Clone for LunarData {
    fn clone(&self) -> (r: Self)
        ensures
            r == *self,
    {
        LunarData {
            matnr: self.matnr.clone(),
            plant: self.plant.clone(),
            storage_location: self.storage_location.clone(),
            available_stock: self.available_stock,
            base_unit: self.base_unit.clone(),
            sales_org: self.sales_org.clone(),
            distribution_channel: self.distribution_channel.clone(),
        }
    }
}

/// (MATNR, plant, storage location, available stock in thousandths, base
/// unit, sales organisation, distribution channel).
pub type LunarDataView = (Seq<char>, Seq<char>, Seq<char>, Option<u64>, Seq<char>, Seq<char>, Seq<char>);

pub open spec fn lunar_data_view(a: LunarData) -> LunarDataView {
    (
        a.matnr@,
        a.plant@,
        a.storage_location@,
        a.available_stock,
        a.base_unit@,
        a.sales_org@,
        a.distribution_channel@,
    )
}

/// The `data` of a ERP query.
pub struct LunarQueryData {
    pub material: LunarData,
}

/// Stub ERP data: (MATNR, plant, storage location, available stock in thousandths of the base unit, base unit, sales organisation, distribution channel).
pub open spec fn lunar_seed_table() -> Seq<LunarDataView> {
    seq![
        ("000000000001000001"@, "1000"@, "0001"@, Some(1250000u64), "ST"@, "1000"@, "10"@),
        ("000000000001000002"@, "1000"@, "0001"@, Some(3800000u64), "ST"@, "1000"@, "10"@),
        ("000000000001000003"@, "1000"@, "0001"@, Some(5400000u64), "ST"@, "1000"@, "10"@),
        ("000000000001000004"@, "1000"@, "0010"@, Some(350000u64), "ST"@, "1000"@, "10"@),
        ("000000000001000005"@, "1000"@, "0005"@, Some(820000u64), "KG"@, "1000"@, "10"@)
    ]
}

pub fn lunar_seed_data() -> (v: Vec<LunarData>)
    ensures
        v@.map_values(|e: LunarData| lunar_data_view(e)) == lunar_seed_table(),
{
    let mut v: Vec<LunarData> = Vec::new();
    v.push(LunarData {
        matnr: "000000000001000001".to_owned(),
        plant: "1000".to_owned(),
        storage_location: "0001".to_owned(),
        available_stock: Some(1250000),
        base_unit: "ST".to_owned(),
        sales_org: "1000".to_owned(),
        distribution_channel: "10".to_owned(),
    });
    v.push(LunarData {
        matnr: "000000000001000002".to_owned(),
        plant: "1000".to_owned(),
        storage_location: "0001".to_owned(),
        available_stock: Some(3800000),
        base_unit: "ST".to_owned(),
        sales_org: "1000".to_owned(),
        distribution_channel: "10".to_owned(),
    });
    v.push(LunarData {
        matnr: "000000000001000003".to_owned(),
        plant: "1000".to_owned(),
        storage_location: "0001".to_owned(),
        available_stock: Some(5400000),
        base_unit: "ST".to_owned(),
        sales_org: "1000".to_owned(),
        distribution_channel: "10".to_owned(),
    });
    v.push(LunarData {
        matnr: "000000000001000004".to_owned(),
        plant: "1000".to_owned(),
        storage_location: "0010".to_owned(),
        available_stock: Some(350000),
        base_unit: "ST".to_owned(),
        sales_org: "1000".to_owned(),
        distribution_channel: "10".to_owned(),
    });
    v.push(LunarData {
        matnr: "000000000001000005".to_owned(),
        plant: "1000".to_owned(),
        storage_location: "0005".to_owned(),
        available_stock: Some(820000),
        base_unit: "KG".to_owned(),
        sales_org: "1000".to_owned(),
        distribution_channel: "10".to_owned(),
    });
    assert(v@.map_values(|e: LunarData| lunar_data_view(e)) =~= lunar_seed_table());
    v
}

/// The GraphQL document sent to the ERP subgraph.
pub open spec fn material_document() -> Seq<char> {
    "query($matnr: String!) { material(matnr: $matnr) { matnr plant storageLocation availableStock baseUnit salesOrg distributionChannel } }"@
}

/// Client of the ERP (Lunar) subgraph.
pub struct LunarClient {
    config: SubgraphConfig,
    stub_store: KeyedStore<LunarData>,
}

impl LunarClient {
    /// The stub records by MATNR.
    pub closed spec fn stub_view(&self) -> Map<Seq<char>, LunarDataView> {
        self.stub_store.view().map_values(|a: LunarData| lunar_data_view(a))
    }

    pub closed spec fn wf(&self) -> bool {
        &&& self.stub_store.wf()
        &&& forall|k: Seq<char>| #[trigger] self.stub_store.view().contains_key(k)
            ==> self.stub_store.view()[k].matnr@ == k
    }

    pub closed spec fn settings(&self) -> SubgraphConfig {
        self.config
    }

    /// A client whose stub store holds the seed records by MATNR.
    pub fn new(config: SubgraphConfig) -> (r: Self)
        ensures
            r.wf(),
            r.settings() == config,
            r.stub_view() == loaded(Map::empty(), lunar_seed_table(), |v: LunarDataView| v.0),
    {
        let mut store: KeyedStore<LunarData> = KeyedStore::new();
        let items = lunar_seed_data();
        let ghost t = lunar_seed_table();
        let mut i: usize = 0;
        while i < items.len()
            invariant
                store.wf(),
                forall|k: Seq<char>| #[trigger] store.view().contains_key(k) ==> store.view()[k].matnr@ == k,
                i <= items@.len(),
                items@.map_values(|e: LunarData| lunar_data_view(e)) == t,
                store.view().map_values(|a: LunarData| lunar_data_view(a)) == loaded(
                    Map::empty(),
                    t.take(i as int),
                    |v: LunarDataView| v.0,
                ),
            decreases items@.len() - i,
        {
            let item = items[i].clone();
            let ghost before = store.view();
            proof {
                assert(t.take(i + 1).drop_last() =~= t.take(i as int));
                assert(t.take(i + 1).last() == lunar_data_view(item));
            }
            store.insert(item.matnr.clone(), item);
            assert(store.view().map_values(|a: LunarData| lunar_data_view(a)) =~= before.map_values(
                |a: LunarData| lunar_data_view(a),
            ).insert(item.matnr@, lunar_data_view(item)));
            i += 1;
        }
        proof {
            assert(t.take(items@.len() as int) =~= t);
        }
        LunarClient { config, stub_store: store }
    }

    /// Fetch ERP data by MATNR: in stub mode from the stub store (`NullData` for an unknown MATNR), otherwise over HTTP.
    pub fn get_erp_data(&self, matnr: &str) -> (r: Fetch<LunarData>)
        requires
            self.wf(),
        ensures
            self.settings().stub_mode ==> match r {
                Fetch::Done(Ok(a)) => self.stub_view().contains_key(matnr@) && lunar_data_view(a)
                    == self.stub_view()[matnr@],
                Fetch::Done(Err(e)) => !self.stub_view().contains_key(matnr@) && e is NullData,
                Fetch::Remote => false,
            },
            !self.settings().stub_mode ==> r is Remote,
    {
        if self.config.stub_mode {
            match self.stub_store.get(matnr) {
                Some(a) => Fetch::Done(Ok(a.clone())),
                None => Fetch::Done(Err(SubgraphError::NullData)),
            }
        } else {
            Fetch::Remote
        }
    }

    /// The GraphQL document sent to the ERP subgraph.
    pub fn material_query() -> (r: &'static str)
        ensures
            r@ == material_document(),
    {
        "query($matnr: String!) { material(matnr: $matnr) { matnr plant storageLocation availableStock baseUnit salesOrg distributionChannel } }"
    }

    /// The record carried by a ERP response.
    pub fn material_from_response(resp: GraphQlResponse<LunarQueryData>) -> (r: Result<LunarData, SubgraphError>)
        ensures
            match resp.data {
                Some(d) => r == Ok::<LunarData, SubgraphError>(d.material),
                None => r matches Err(SubgraphError::NullData),
            },
    {
        match response_data(resp) {
            Ok(d) => Ok(d.material),
            Err(e) => Err(e),
        }
    }
}

// ---------------------------------------------------------------------------
// Consistency of the stub data
// ---------------------------------------------------------------------------

proof fn lemma_upserted_finds(m: Map<Seq<char>, MatnrView>, t: Seq<MatnrView>, i: int)
    requires
        0 <= i < t.len(),
        forall|j: int| i < j < t.len() ==> #[trigger] t[j].0 != t[i].0,
    ensures
        upserted(m, t).contains_key(t[i].0),
        upserted(m, t)[t[i].0] == t[i],
    decreases t.len(),
{
    if i < t.len() - 1 {
        lemma_upserted_finds(m, t.drop_last(), i);
    }
}

proof fn lemma_loaded_finds<W>(m: Map<Seq<char>, W>, t: Seq<W>, key: spec_fn(W) -> Seq<char>, i: int)
    requires
        0 <= i < t.len(),
        forall|j: int| i < j < t.len() ==> #[trigger] key(t[j]) != key(t[i]),
    ensures
        loaded(m, t, key).contains_key(key(t[i])),
        loaded(m, t, key)[key(t[i])] == t[i],
    decreases t.len(),
{
    if i < t.len() - 1 {
        lemma_loaded_finds(m, t.drop_last(), key, i);
    }
}

/// The stub stores mirror the catalogue: every catalogue article is on the
/// EAN whitelist, and under the material number it translates to, the PIM
/// stub holds the same article data and the price stub the same price.
pub proof fn lemma_stubs_mirror_catalogue(i: int)
    requires
        0 <= i < catalog_seed_table().len(),
    ensures
        ({
            let r = catalog_seed_table()[i];
            let ids = upserted(Map::empty(), seed_table());
            let pim = loaded(Map::empty(), pim_seed_table(), |v: PimArticleView| v.1);
            let prices = loaded(Map::empty(), price_seed_table(), |v: PriceDataView| v.0);
            &&& ids.contains_key(r.0)
            &&& pim.contains_key(ids[r.0].1)
            &&& pim[ids[r.0].1] == (r.0, ids[r.0].1, r.1, r.2, r.3, r.4, r.5, r.6)
            &&& prices.contains_key(ids[r.0].1)
            &&& prices[ids[r.0].1].1 == r.7
            &&& prices[ids[r.0].1].2 == r.8
        }),
{
    let ids_t = seed_table();
    let pim_t = pim_seed_table();
    let price_t = price_seed_table();
    let pim_key = |v: PimArticleView| v.1;
    let price_key = |v: PriceDataView| v.0;
    reveal_strlit("4012345678901");
    reveal_strlit("4012345678902");
    reveal_strlit("4012345678903");
    reveal_strlit("4012345678904");
    reveal_strlit("4012345678905");
    reveal_strlit("4012345100000");
    reveal_strlit("4012345100001");
    reveal_strlit("4012345100002");
    reveal_strlit("4012345100003");
    reveal_strlit("4012345100004");
    reveal_strlit("4012345100005");
    reveal_strlit("4012345100006");
    reveal_strlit("4012345100007");
    reveal_strlit("4012345100008");
    reveal_strlit("4012345100009");
    reveal_strlit("4012345999999");
    reveal_strlit("4012345100010");
    reveal_strlit("000000000001000001");
    reveal_strlit("000000000001000002");
    reveal_strlit("000000000001000003");
    reveal_strlit("000000000001000004");
    reveal_strlit("000000000001000005");
    assert forall|j: int| i < j < ids_t.len() implies #[trigger] ids_t[j].0 != ids_t[i].0 by {
        if j < 5 {
            assert(ids_t[j].0[12] != ids_t[i].0[12]);
        } else {
            assert(ids_t[j].0[7] != ids_t[i].0[7]);
        }
    }
    lemma_upserted_finds(Map::empty(), ids_t, i);
    assert forall|j: int| i < j < pim_t.len() implies #[trigger] pim_key(pim_t[j]) != pim_key(pim_t[i]) by {
        assert(pim_t[j].1[17] != pim_t[i].1[17]);
    }
    lemma_loaded_finds(Map::empty(), pim_t, pim_key, i);
    assert forall|j: int| i < j < price_t.len() implies #[trigger] price_key(price_t[j]) != price_key(price_t[i]) by {
        assert(price_t[j].0[17] != price_t[i].0[17]);
    }
    lemma_loaded_finds(Map::empty(), price_t, price_key, i);
}

/// The PIM stub seeds are five articles with distinct material numbers;
/// each one's EAN translates to its material number, and each matches the
/// catalogue record with the same EAN field for field.
pub proof fn lemma_pim_seeds_match(i: int)
    requires
        0 <= i < pim_seed_table().len(),
    ensures
        pim_seed_table().len() == 5,
        forall|j: int, k: int| 0 <= j < k < 5 ==> #[trigger] pim_seed_table()[j].1 != #[trigger] pim_seed_table()[k].1,
        ({
            let a = pim_seed_table()[i];
            let ids = upserted(Map::empty(), seed_table());
            let r = catalog_seed_table()[i];
            &&& ids.contains_key(a.0)
            &&& ids[a.0].1 == a.1
            &&& r.0 == a.0
            &&& (r.1, r.2, r.3, r.4, r.5, r.6) == (a.2, a.3, a.4, a.5, a.6, a.7)
        }),
{
    let ids_t = seed_table();
    let pim_t = pim_seed_table();
    reveal_strlit("4012345678901");
    reveal_strlit("4012345678902");
    reveal_strlit("4012345678903");
    reveal_strlit("4012345678904");
    reveal_strlit("4012345678905");
    reveal_strlit("4012345100000");
    reveal_strlit("4012345100001");
    reveal_strlit("4012345100002");
    reveal_strlit("4012345100003");
    reveal_strlit("4012345100004");
    reveal_strlit("4012345100005");
    reveal_strlit("4012345100006");
    reveal_strlit("4012345100007");
    reveal_strlit("4012345100008");
    reveal_strlit("4012345100009");
    reveal_strlit("4012345999999");
    reveal_strlit("4012345100010");
    reveal_strlit("000000000001000001");
    reveal_strlit("000000000001000002");
    reveal_strlit("000000000001000003");
    reveal_strlit("000000000001000004");
    reveal_strlit("000000000001000005");
    assert forall|j: int, k: int| 0 <= j < k < 5 implies #[trigger] pim_t[j].1 != #[trigger] pim_t[k].1 by {
        assert(pim_t[j].1[17] != pim_t[k].1[17]);
    }
    assert forall|j: int| i < j < ids_t.len() implies #[trigger] ids_t[j].0 != ids_t[i].0 by {
        if j < 5 {
            assert(ids_t[j].0[12] != ids_t[i].0[12]);
        } else {
            assert(ids_t[j].0[7] != ids_t[i].0[7]);
        }
    }
    lemma_upserted_finds(Map::empty(), ids_t, i);
}

} // verus!
