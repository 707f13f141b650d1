//! The GraphQL endpoint's request handling: the wire request, resolution of
//! automatic persisted queries, and how each failure is answered.
use serde_json::Value;
use vstd::prelude::*;
use vstd::utf8::encode_utf8;

use crate::apq::{ApqCache, apq_hash, lemma_stored_query_found, next_tick, stored_as};
use crate::coalescing::{Coalescer, json_text, request_key};
use crate::cost_analysis::{CostAnalyzer, CostConfig, CostError, verdict};
use crate::text::opt_view;

verus! {

// ---------------------------------------------------------------------------
// Wire types
// ---------------------------------------------------------------------------

pub struct PersistedQuery {
    pub sha256_hash: String,
    pub version: u32,
}

pub struct GraphQLExtensions {
    pub persisted_query: Option<PersistedQuery>,
}

/// A GraphQL request as posted to the endpoint.
pub struct GraphQLRequest {
    pub query: Option<String>,
    pub operation_name: Option<String>,
    pub variables: Option<Value>,
    pub extensions: Option<GraphQLExtensions>,
}

/// The persisted-query hash a request carries, if any.
pub open spec fn persisted_hash(req: GraphQLRequest) -> Option<Seq<char>> {
    match req.extensions {
        Some(ext) => match ext.persisted_query {
            Some(pq) => Some(pq.sha256_hash@),
            None => None,
        },
        None => None,
    }
}

// ---------------------------------------------------------------------------
// Errors
// ---------------------------------------------------------------------------

/// Why a GraphQL request was not executed.
pub enum AppError {
    BadRequest(String),
    CostExceeded(CostError),
    /// The persisted-query hash is not cached.
    ApqNotFound,
    Coalescing(String),
}

/// The HTTP status each failure is answered with: bad requests 400, cost
/// rejections 429, unknown persisted queries 200 (the APQ protocol answers
/// them in the body), coalescing failures 500.
pub open spec fn status_for(e: AppError) -> u16 {
    match e {
        AppError::BadRequest(_) => 400,
        AppError::CostExceeded(_) => 429,
        AppError::ApqNotFound => 200,
        AppError::Coalescing(_) => 500,
    }
}

/// The extension code of a cost rejection.
pub open spec fn cost_limit_code() -> Seq<char> {
    "COST_LIMIT_EXCEEDED"@
}

/// The message of a request that carries neither a query nor a persisted
/// query hash.
pub open spec fn missing_query_message() -> Seq<char> {
    "missing query or persistedQuery extension"@
}

impl AppError {
    pub fn status_code(&self) -> (r: u16)
        ensures
            r == status_for(*self),
    {
        match self {
            AppError::BadRequest(_) => 400,
            AppError::CostExceeded(_) => 429,
            AppError::ApqNotFound => 200,
            AppError::Coalescing(_) => 500,
        }
    }

    /// The extension code a cost rejection carries.
    pub fn cost_code() -> (r: &'static str)
        ensures
            r@ == cost_limit_code(),
    {
        "COST_LIMIT_EXCEEDED"
    }
}

impl From<CostError> for AppError {
    fn from(e: CostError) -> (r: Self) {
        AppError::CostExceeded(e)
    }
}

impl vstd::std_specs::convert::FromSpecImpl<CostError> for AppError {
    open spec fn obeys_from_spec() -> bool {
        true
    }

    open spec fn from_spec(e: CostError) -> Self {
        AppError::CostExceeded(e)
    }
}

// ---------------------------------------------------------------------------
// Persisted queries
// ---------------------------------------------------------------------------

/// `r` is what resolving the persisted query of request `req` against
/// `cache` yields, `req2` and `cache2` the request and cache afterwards.
///
/// With a persisted-query hash and no query, the cached query for the hash,
/// which becomes the most recently used entry (`ApqNotFound`, the cache
/// unchanged, where none is cached). With a hash
/// and a query, the query, which is also stored in the cache. Without a
/// hash, the request's query (`BadRequest` where it has none); the cache is
/// unchanged. The query taken from the request is removed from it; nothing
/// else of the request changes.
pub open spec fn apq_resolution(
    req: GraphQLRequest,
    cache: ApqCache,
    req2: GraphQLRequest,
    cache2: ApqCache,
    r: Result<String, AppError>,
) -> bool {
    &&& req2.query is None
    &&& req2.operation_name == req.operation_name
    &&& req2.variables == req.variables
    &&& req2.extensions == req.extensions
    &&& cache2.capacity() == cache.capacity()
    &&& match persisted_hash(req) {
        Some(hash) => match req.query {
            None => match r {
                Ok(q) => cache.entries().contains_key(hash) && q@ == cache.entries()[hash].0
                    && cache2.entries() == cache.entries().insert(hash, (q@, cache.now()))
                    && cache2.now() == next_tick(cache.now()),
                Err(e) => !cache.entries().contains_key(hash) && e is ApqNotFound && cache2.entries()
                    == cache.entries() && cache2.now() == cache.now(),
            },
            Some(q) => r == Ok::<String, AppError>(q) && cache2.now() == next_tick(cache.now())
                && stored_as(cache.entries(), cache.capacity(), cache.now(), q@, cache2.entries()),
        },
        None => cache2.entries() == cache.entries() && cache2.now() == cache.now() && match req.query {
            Some(q) => r == Ok::<String, AppError>(q),
            None => r matches Err(AppError::BadRequest(m)) && m@ == missing_query_message(),
        },
    }
}

/// The query text a request resolves to; see `apq_resolution`.
pub fn resolve_apq(req: &mut GraphQLRequest, cache: &mut ApqCache) -> (r: Result<String, AppError>)
    requires
        old(cache).wf(),
    ensures
        final(cache).wf(),
        apq_resolution(*old(req), *old(cache), *final(req), *final(cache), r),
{
    let hash: Option<String> = match &req.extensions {
        Some(ext) => match &ext.persisted_query {
            Some(pq) => Some(pq.sha256_hash.clone()),
            None => None,
        },
        None => None,
    };
    match hash {
        Some(hash) => {
            match req.query.take() {
                None => match cache.lookup(hash.as_str()) {
                    Some(q) => Ok(q),
                    None => Err(AppError::ApqNotFound),
                },
                Some(query) => {
                    let _ = cache.store(query.as_str());
                    Ok(query)
                },
            }
        },
        None => match req.query.take() {
            Some(query) => Ok(query),
            None => Err(AppError::BadRequest("missing query or persistedQuery extension".to_owned())),
        },
    }
}

// ---------------------------------------------------------------------------
// Screening
// ---------------------------------------------------------------------------

/// A request that passed persisted-query resolution and cost analysis:
/// its query text, the cost it was accepted at, and its coalescing key.
pub struct Screened {
    pub query: String,
    pub cost: u32,
    pub key: u64,
}

/// The message of a query whose length reaches `usize::MAX` bytes.
pub open spec fn oversized_query_message() -> Seq<char> {
    "query too large"@
}

/// What screening makes of a request (`req`, after resolution) whose query
/// resolved to `resolved`: a resolution error is passed on; a resolved query
/// is analysed against the limits of `cfg`, a rejection becoming
/// `CostExceeded`; an accepted one is returned with its cost and the key of
/// its query, operation name and variables.
pub open spec fn screening(
    cfg: CostConfig,
    req: GraphQLRequest,
    resolved: Result<String, AppError>,
    r: Result<Screened, AppError>,
) -> bool {
    match resolved {
        Err(e) => r == Err::<Screened, AppError>(e),
        Ok(q) => {
            let bytes = encode_utf8(q@);
            if bytes.len() >= usize::MAX {
                r matches Err(AppError::BadRequest(m)) && m@ == oversized_query_message()
            } else {
                match r {
                    Ok(s) => s.query@ == q@ && verdict(cfg, bytes, Ok(s.cost)) && s.key == request_key(
                        Some(q@),
                        opt_view(req.operation_name),
                        match req.variables {
                            Some(v) => json_text(v),
                            None => None,
                        },
                    ),
                    Err(AppError::CostExceeded(e)) => verdict(cfg, bytes, Err(e)),
                    Err(_) => false,
                }
            }
        },
    }
}

/// The governance steps a GraphQL request passes before it is executed, in
/// order: persisted-query resolution, cost analysis, and the key under
/// which identical requests coalesce.
pub fn screen_request(req: &mut GraphQLRequest, cache: &mut ApqCache, analyzer: &CostAnalyzer) -> (r: Result<Screened, AppError>)
    requires
        old(cache).wf(),
    ensures
        final(cache).wf(),
        exists|resolved: Result<String, AppError>|
            apq_resolution(*old(req), *old(cache), *final(req), *final(cache), resolved) && screening(
                analyzer.settings(),
                *final(req),
                resolved,
                r,
            ),
{
    let outcome = resolve_apq(req, cache);
    let ghost resolved = outcome;
    assert(apq_resolution(*old(req), *old(cache), *req, *cache, resolved));
    let query = match outcome {
        Ok(q) => q,
        Err(e) => {
            assert(screening(analyzer.settings(), *req, resolved, Err::<Screened, AppError>(e)));
            return Err(e);
        },
    };
    if query.as_str().as_bytes().len() == usize::MAX {
        let r = Err(AppError::BadRequest("query too large".to_owned()));
        assert(screening(analyzer.settings(), *req, resolved, r));
        return r;
    }
    let r = match analyzer.analyze(query.as_str()) {
        Err(e) => Err(AppError::CostExceeded(e)),
        Ok(cost) => {
            let key = Coalescer::make_key(
                Some(query.as_str()),
                match &req.operation_name {
                    Some(n) => Some(n.as_str()),
                    None => None,
                },
                match &req.variables {
                    Some(v) => Some(v),
                    None => None,
                },
            );
            Ok(Screened { query, cost, key })
        },
    };
    assert(screening(analyzer.settings(), *req, resolved, r));
    r
}

// ---------------------------------------------------------------------------
// Laws
// ---------------------------------------------------------------------------

/// A resolved query that screening turns away (and that is not oversized)
/// was rejected by cost analysis, and is answered with 429 Too Many
/// Requests.
pub proof fn lemma_cost_rejection_status(
    cfg: CostConfig,
    req: GraphQLRequest,
    q: String,
    r: Result<Screened, AppError>,
)
    requires
        screening(cfg, req, Ok(q), r),
        encode_utf8(q@).len() < usize::MAX,
        r is Err,
    ensures
        r->Err_0 is CostExceeded,
        status_for(r->Err_0) == 429,
{
}

/// A request that sends only a persisted-query hash the cache does not hold
/// is answered `ApqNotFound`, with status 200, and changes nothing.
pub proof fn lemma_unknown_hash_not_found(
    req: GraphQLRequest,
    cache: ApqCache,
    req2: GraphQLRequest,
    cache2: ApqCache,
    r: Result<String, AppError>,
)
    requires
        apq_resolution(req, cache, req2, cache2, r),
        req.query is None,
        persisted_hash(req) matches Some(h) && !cache.entries().contains_key(h),
    ensures
        r matches Err(AppError::ApqNotFound),
        status_for(r->Err_0) == 200,
        cache2.entries() == cache.entries(),
{
}

/// Sending a persisted-query hash together with its query caches the query:
/// a later request with that hash alone resolves to it.
pub proof fn lemma_registered_query_resolves(
    req: GraphQLRequest,
    cache: ApqCache,
    req2: GraphQLRequest,
    cache2: ApqCache,
    r: Result<String, AppError>,
    later: GraphQLRequest,
    req3: GraphQLRequest,
    cache3: ApqCache,
    r3: Result<String, AppError>,
)
    requires
        apq_resolution(req, cache, req2, cache2, r),
        req.query matches Some(q) && persisted_hash(req) is Some,
        apq_resolution(later, cache2, req3, cache3, r3),
        later.query is None,
        persisted_hash(later) == Some(apq_hash(req.query->0@)),
    ensures
        r3 matches Ok(q3) && q3@ == req.query->0@,
{
    let q = req.query->0;
    lemma_stored_query_found(cache.entries(), cache.capacity(), cache.now(), q@, cache2.entries());
}

} // verus!
