//! Article cache for the point-of-sale fast-read path: articles arrive from
//! the event stream and are looked up by EAN without any backend call.
use std::sync::Arc;
use vstd::prelude::*;

use crate::keyed_store::KeyedStore;

verus! {

/// Article data for the POS read path. Amounts are in minor currency units
/// (cents).
pub struct PosArticle {
    pub ean: String,
    pub name: String,
    pub price_amount: u64,
    pub price_currency: String,
    pub brand: String,
    pub category: String,
    pub deposit_amount: Option<u64>,
    pub age_restriction: Option<u8>,
}

impl Clone for PosArticle {
    fn clone(&self) -> (r: Self)
        ensures
            r == *self,
    {
        PosArticle {
            ean: self.ean.clone(),
            name: self.name.clone(),
            price_amount: self.price_amount,
            price_currency: self.price_currency.clone(),
            brand: self.brand.clone(),
            category: self.category.clone(),
            deposit_amount: self.deposit_amount,
            age_restriction: self.age_restriction,
        }
    }
}

/// (EAN, name, price, currency, brand, category, deposit, minimum age).
pub type PosArticleView = (
    Seq<char>,
    Seq<char>,
    u64,
    Seq<char>,
    Seq<char>,
    Seq<char>,
    Option<u64>,
    Option<u8>,
);

pub open spec fn pos_article_view(a: PosArticle) -> PosArticleView {
    (
        a.ean@,
        a.name@,
        a.price_amount,
        a.price_currency@,
        a.brand@,
        a.category@,
        a.deposit_amount,
        a.age_restriction,
    )
}

/// The cache `m` after upserting each article of `t` in order, each under
/// its own EAN.
pub open spec fn upserted_articles(
    m: Map<Seq<char>, PosArticleView>,
    t: Seq<PosArticleView>,
) -> Map<Seq<char>, PosArticleView>
    decreases t.len(),
{
    if t.len() == 0 {
        m
    } else {
        upserted_articles(m, t.drop_last()).insert(t.last().0, t.last())
    }
}

/// Articles loaded at ingestion start-up: (EAN, name, price in cents, currency, brand, category, deposit in cents, minimum age).
pub open spec fn pos_seed_table() -> Seq<PosArticleView> {
    seq![
        ("4012345100000"@, "EDEKA Bio Frischmilch 3,5% 1L"@, 129, "EUR"@, "EDEKA Bio"@, "Molkereiprodukte"@, None::<u64>, None::<u8>),
        ("4012345100001"@, "GUT&GÜNSTIG Toastbrot 500g"@, 89, "EUR"@, "GUT&GÜNSTIG"@, "Brot & Backwaren"@, None::<u64>, None::<u8>),
        ("4012345100002"@, "Coca-Cola 1,5L PET"@, 149, "EUR"@, "Coca-Cola"@, "Erfrischungsgetränke"@, Some(25u64), None::<u8>),
        ("4012345100003"@, "EDEKA Lachsfilet tiefgefroren 200g"@, 499, "EUR"@, "EDEKA"@, "Tiefkühlkost"@, None::<u64>, None::<u8>),
        ("4012345100004"@, "EDEKA Äpfel Jonagold 1kg"@, 249, "EUR"@, "EDEKA"@, "Obst & Gemüse"@, None::<u64>, None::<u8>),
        ("4012345100005"@, "Becks Pilsner 6x0,33L"@, 449, "EUR"@, "Beck's"@, "Bier"@, Some(48u64), Some(16u8)),
        ("4012345100006"@, "EDEKA Bio Eier 10er Bodenhaltung"@, 279, "EUR"@, "EDEKA Bio"@, "Eier"@, None::<u64>, None::<u8>),
        ("4012345100007"@, "Barilla Spaghetti No.5 500g"@, 119, "EUR"@, "Barilla"@, "Nudeln"@, None::<u64>, None::<u8>),
        ("4012345100008"@, "EDEKA Bio Joghurt Natur 500g"@, 109, "EUR"@, "EDEKA Bio"@, "Molkereiprodukte"@, None::<u64>, None::<u8>),
        ("4012345100009"@, "Nivea Creme 150ml"@, 229, "EUR"@, "Nivea"@, "Körperpflege"@, None::<u64>, None::<u8>),
        ("4012345999999"@, "EDEKA Pfandbon 0,15€"@, 15, "EUR"@, "EDEKA"@, "Pfand"@, None::<u64>, None::<u8>),
        ("4012345100010"@, "Marlboro Gold 20er"@, 820, "EUR"@, "Marlboro"@, "Tabakwaren"@, None::<u64>, Some(18u8))
    ]
}

pub fn seed_pos_articles() -> (v: Vec<PosArticle>)
    ensures
        v@.map_values(|e: PosArticle| pos_article_view(e)) == pos_seed_table(),
{
    let mut v: Vec<PosArticle> = Vec::new();
    v.push(PosArticle {
        ean: "4012345100000".to_owned(),
        name: "EDEKA Bio Frischmilch 3,5% 1L".to_owned(),
        price_amount: 129,
        price_currency: "EUR".to_owned(),
        brand: "EDEKA Bio".to_owned(),
        category: "Molkereiprodukte".to_owned(),
        deposit_amount: None,
        age_restriction: None,
    });
    v.push(PosArticle {
        ean: "4012345100001".to_owned(),
        name: "GUT&GÜNSTIG Toastbrot 500g".to_owned(),
        price_amount: 89,
        price_currency: "EUR".to_owned(),
        brand: "GUT&GÜNSTIG".to_owned(),
        category: "Brot & Backwaren".to_owned(),
        deposit_amount: None,
        age_restriction: None,
    });
    v.push(PosArticle {
        ean: "4012345100002".to_owned(),
        name: "Coca-Cola 1,5L PET".to_owned(),
        price_amount: 149,
        price_currency: "EUR".to_owned(),
        brand: "Coca-Cola".to_owned(),
        category: "Erfrischungsgetränke".to_owned(),
        deposit_amount: Some(25),
        age_restriction: None,
    });
    v.push(PosArticle {
        ean: "4012345100003".to_owned(),
        name: "EDEKA Lachsfilet tiefgefroren 200g".to_owned(),
        price_amount: 499,
        price_currency: "EUR".to_owned(),
        brand: "EDEKA".to_owned(),
        category: "Tiefkühlkost".to_owned(),
        deposit_amount: None,
        age_restriction: None,
    });
    v.push(PosArticle {
        ean: "4012345100004".to_owned(),
        name: "EDEKA Äpfel Jonagold 1kg".to_owned(),
        price_amount: 249,
        price_currency: "EUR".to_owned(),
        brand: "EDEKA".to_owned(),
        category: "Obst & Gemüse".to_owned(),
        deposit_amount: None,
        age_restriction: None,
    });
    v.push(PosArticle {
        ean: "4012345100005".to_owned(),
        name: "Becks Pilsner 6x0,33L".to_owned(),
        price_amount: 449,
        price_currency: "EUR".to_owned(),
        brand: "Beck's".to_owned(),
        category: "Bier".to_owned(),
        deposit_amount: Some(48),
        age_restriction: Some(16),
    });
    v.push(PosArticle {
        ean: "4012345100006".to_owned(),
        name: "EDEKA Bio Eier 10er Bodenhaltung".to_owned(),
        price_amount: 279,
        price_currency: "EUR".to_owned(),
        brand: "EDEKA Bio".to_owned(),
        category: "Eier".to_owned(),
        deposit_amount: None,
        age_restriction: None,
    });
    v.push(PosArticle {
        ean: "4012345100007".to_owned(),
        name: "Barilla Spaghetti No.5 500g".to_owned(),
        price_amount: 119,
        price_currency: "EUR".to_owned(),
        brand: "Barilla".to_owned(),
        category: "Nudeln".to_owned(),
        deposit_amount: None,
        age_restriction: None,
    });
    v.push(PosArticle {
        ean: "4012345100008".to_owned(),
        name: "EDEKA Bio Joghurt Natur 500g".to_owned(),
        price_amount: 109,
        price_currency: "EUR".to_owned(),
        brand: "EDEKA Bio".to_owned(),
        category: "Molkereiprodukte".to_owned(),
        deposit_amount: None,
        age_restriction: None,
    });
    v.push(PosArticle {
        ean: "4012345100009".to_owned(),
        name: "Nivea Creme 150ml".to_owned(),
        price_amount: 229,
        price_currency: "EUR".to_owned(),
        brand: "Nivea".to_owned(),
        category: "Körperpflege".to_owned(),
        deposit_amount: None,
        age_restriction: None,
    });
    v.push(PosArticle {
        ean: "4012345999999".to_owned(),
        name: "EDEKA Pfandbon 0,15€".to_owned(),
        price_amount: 15,
        price_currency: "EUR".to_owned(),
        brand: "EDEKA".to_owned(),
        category: "Pfand".to_owned(),
        deposit_amount: None,
        age_restriction: None,
    });
    v.push(PosArticle {
        ean: "4012345100010".to_owned(),
        name: "Marlboro Gold 20er".to_owned(),
        price_amount: 820,
        price_currency: "EUR".to_owned(),
        brand: "Marlboro".to_owned(),
        category: "Tabakwaren".to_owned(),
        deposit_amount: None,
        age_restriction: Some(18),
    });
    assert(v@.map_values(|e: PosArticle| pos_article_view(e)) =~= pos_seed_table());
    v
}

/// Articles by EAN.
pub struct PosCache {
    articles: KeyedStore<PosArticle>,
}

impl PosCache {
    pub closed spec fn view(&self) -> Map<Seq<char>, PosArticleView> {
        self.articles.view().map_values(|a: PosArticle| pos_article_view(a))
    }

    /// Well-formedness; every article is stored under its own EAN.
    pub closed spec fn wf(&self) -> bool {
        &&& self.articles.wf()
        &&& forall|k: Seq<char>| #[trigger] self.articles.view().contains_key(k)
            ==> self.articles.view()[k].ean@ == k
    }

    /// Every article is stored under the EAN it carries.
    pub proof fn lemma_keyed_by_ean(&self)
        requires
            self.wf(),
        ensures
            forall|k: Seq<char>| #[trigger] self.view().contains_key(k) ==> self.view()[k].0 == k,
            self.view().dom().finite(),
    {
        self.articles.lemma_slots();
        assert(self.view().dom() =~= self.articles.view().dom());
    }

    pub fn new() -> (r: Self)
        ensures
            r.wf(),
            r.view() == Map::<Seq<char>, PosArticleView>::empty(),
    {
        let r = Self { articles: KeyedStore::new() };
        assert(r.view() =~= Map::<Seq<char>, PosArticleView>::empty());
        r
    }

    /// Inserts or replaces the article for `article.ean`.
    pub fn upsert(&mut self, article: PosArticle)
        requires
            old(self).wf(),
        ensures
            final(self).wf(),
            final(self).view() == old(self).view().insert(article.ean@, pos_article_view(article)),
    {
        let ean = article.ean.clone();
        let ghost a = article;
        self.articles.insert(ean, article);
        assert(final(self).view() =~= old(self).view().insert(a.ean@, pos_article_view(a)));
    }

    /// The cached article for an EAN.
    pub fn get(&self, ean: &str) -> (r: Option<Arc<PosArticle>>)
        requires
            self.wf(),
        ensures
            match r {
                Some(a) => self.view().contains_key(ean@) && pos_article_view(*a) == self.view()[ean@],
                None => !self.view().contains_key(ean@),
            },
    {
        match self.articles.get(ean) {
            Some(a) => Some(Arc::new(a.clone())),
            None => None,
        }
    }

    /// Number of cached articles.
    pub fn len(&self) -> (r: usize)
        requires
            self.wf(),
        ensures
            r == self.view().len(),
    {
        proof {
            self.articles.lemma_slots();
            assert(self.view().dom() =~= self.articles.view().dom());
        }
        self.articles.len()
    }

    /// Loads `articles` in order, as the ingestion start-up does.
    pub fn load_all(&mut self, articles: &Vec<PosArticle>)
        requires
            old(self).wf(),
        ensures
            final(self).wf(),
            final(self).view() == upserted_articles(
                old(self).view(),
                articles@.map_values(|a: PosArticle| pos_article_view(a)),
            ),
    {
        let ghost t = articles@.map_values(|a: PosArticle| pos_article_view(a));
        let mut i: usize = 0;
        while i < articles.len()
            invariant
                self.wf(),
                i <= articles@.len(),
                t == articles@.map_values(|a: PosArticle| pos_article_view(a)),
                self.view() == upserted_articles(old(self).view(), t.take(i as int)),
            decreases articles@.len() - i,
        {
            proof {
                assert(t.take(i + 1).drop_last() =~= t.take(i as int));
            }
            self.upsert(articles[i].clone());
            i += 1;
        }
        proof {
            assert(t.take(articles@.len() as int) =~= t);
        }
    }
}

impl Default for PosCache {
    fn default() -> (r: Self)
        ensures
            r.wf(),
            r.view() == Map::<Seq<char>, PosArticleView>::empty(),
    {
        Self::new()
    }
}

/// After an upsert the cache answers the article's EAN with that article, replacing what it held
/// before, and answers every other EAN as before.
pub proof fn lemma_upsert_then_get(m: Map<Seq<char>, PosArticleView>, e: PosArticleView, ean: Seq<char>)
    ensures
        m.insert(e.0, e).contains_key(e.0),
        m.insert(e.0, e)[e.0] == e,
        ean != e.0 ==> m.insert(e.0, e).contains_key(ean) == m.contains_key(ean),
        ean != e.0 && m.contains_key(ean) ==> m.insert(e.0, e)[ean] == m[ean],
{
}

} // verus!
