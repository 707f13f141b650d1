//! The point-of-sale read path: an article lookup that records its own
//! latency.
use std::sync::Arc;
use vstd::prelude::*;

use crate::metrics::{LatencyHistogram, LatencyTracker};
use crate::pos_cache::{PosArticle, PosCache, pos_article_view};

verus! {

/// Looks `ean` up in the cache and records how long the lookup took.
/// `None` is answered with 404 Not Found.
pub fn get_article_impl(cache: &PosCache, metrics: &mut LatencyTracker, ean: &str) -> (r: Option<
    Arc<PosArticle>,
>)
    requires
        cache.wf(),
    ensures
        match r {
            Some(a) => cache.view().contains_key(ean@) && pos_article_view(*a) == cache.view()[ean@],
            None => !cache.view().contains_key(ean@),
        },
        exists|elapsed: u64| final(metrics)@ == old(metrics)@.record(elapsed),
{
    let timer = LatencyHistogram::start();
    let result = cache.get(ean);
    timer.record(metrics);
    result
}

} // verus!
