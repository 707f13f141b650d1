//! The point-of-sale article feed: an initial bulk load of the known
//! articles into the cache, then price updates for single articles.
use vstd::prelude::*;

use crate::id_translation::{MatnrView, seed_table, upserted};
use crate::pos_cache::{
    PosArticle, PosArticleView, PosCache, pos_article_view, pos_seed_table, seed_pos_articles,
    upserted_articles,
};

verus! {

/// The feed's state: the cache it fills, the pause between updates and the
/// articles it knows.
pub struct IngestionWorker {
    cache: PosCache,
    interval_ms: u64,
    seed_articles: Vec<PosArticle>,
}

/// `a` with its price replaced by `price_amount`.
pub open spec fn repriced(a: PosArticleView, price_amount: u64) -> PosArticleView {
    (a.0, a.1, price_amount, a.3, a.4, a.5, a.6, a.7)
}

impl IngestionWorker {
    pub closed spec fn cache_view(&self) -> Map<Seq<char>, PosArticleView> {
        self.cache.view()
    }

    pub closed spec fn articles(&self) -> Seq<PosArticleView> {
        self.seed_articles@.map_values(|a: PosArticle| pos_article_view(a))
    }

    pub closed spec fn interval(&self) -> u64 {
        self.interval_ms
    }

    pub closed spec fn wf(&self) -> bool {
        self.cache.wf()
    }

    /// A feed over `cache` that knows the seed articles.
    pub fn new(cache: PosCache, interval_ms: u64) -> (r: Self)
        requires
            cache.wf(),
        ensures
            r.wf(),
            r.cache_view() == cache.view(),
            r.articles() == pos_seed_table(),
            r.interval() == interval_ms,
    {
        IngestionWorker { cache, interval_ms, seed_articles: seed_pos_articles() }
    }

    /// The start-up catch-up: every known article is upserted, in order.
    pub fn initial_load(&mut self)
        requires
            old(self).wf(),
        ensures
            final(self).wf(),
            final(self).cache_view() == upserted_articles(old(self).cache_view(), old(self).articles()),
            final(self).articles() == old(self).articles(),
            final(self).interval() == old(self).interval(),
    {
        self.cache.load_all(&self.seed_articles);
    }

    /// An update event for known article `index`: the article is upserted
    /// with the new price.
    pub fn price_update(&mut self, index: usize, price_amount: u64)
        requires
            old(self).wf(),
            index < old(self).articles().len(),
        ensures
            final(self).wf(),
            final(self).cache_view() == old(self).cache_view().insert(
                old(self).articles()[index as int].0,
                repriced(old(self).articles()[index as int], price_amount),
            ),
            final(self).articles() == old(self).articles(),
            final(self).interval() == old(self).interval(),
    {
        let mut article = self.seed_articles[index].clone();
        article.price_amount = price_amount;
        self.cache.upsert(article);
    }

    /// The price of known article `index`, in cents.
    pub fn base_price(&self, index: usize) -> (r: u64)
        requires
            index < self.articles().len(),
        ensures
            r == self.articles()[index as int].2,
    {
        self.seed_articles[index].price_amount
    }

    /// How many articles the feed knows.
    pub fn article_count(&self) -> (r: usize)
        ensures
            r == self.articles().len(),
    {
        self.seed_articles.len()
    }

    pub fn interval_ms(&self) -> (r: u64)
        ensures
            r == self.interval(),
    {
        self.interval_ms
    }

    /// The cache the feed fills.
    pub fn cache(&self) -> (r: &PosCache)
        ensures
            r.view() == self.cache_view(),
            self.wf() ==> r.wf(),
    {
        &self.cache
    }
}

proof fn lemma_upserted_holds(m: Map<Seq<char>, MatnrView>, t: Seq<MatnrView>, j: int)
    requires
        0 <= j < t.len(),
    ensures
        upserted(m, t).contains_key(t[j].0),
    decreases t.len(),
{
    if j < t.len() - 1 {
        lemma_upserted_holds(m, t.drop_last(), j);
    }
}

/// Every article the feed knows has a MATNR entry among the seed entries,
/// and so is on the EAN whitelist of the seeded translator.
pub proof fn lemma_feed_articles_whitelisted(i: int)
    requires
        0 <= i < pos_seed_table().len(),
    ensures
        exists|j: int| 0 <= j < seed_table().len() && (#[trigger] seed_table()[j]).0 == pos_seed_table()[i].0,
        upserted(Map::empty(), seed_table()).contains_key(pos_seed_table()[i].0),
{
    let t = seed_table();
    let p = pos_seed_table();
    let j = if i < 10 {
        i + 5
    } else if i == 10 {
        15
    } else {
        16
    };
    assert(t[j].0 == p[i].0);
    lemma_upserted_holds(Map::empty(), t, j);
}

} // verus!
