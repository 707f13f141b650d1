use gateway::apq::{query_hash, ApqCache};
use gateway::coalescing::Coalescer;
use gateway::cost_analysis::{CostAnalyzer, CostConfig, CostError};
use gateway::gateway::{
    resolve_apq, screen_request, AppError, GraphQLExtensions, GraphQLRequest, PersistedQuery,
};

fn request(query: Option<&str>, hash: Option<&str>) -> GraphQLRequest {
    GraphQLRequest {
        query: query.map(|q| q.to_string()),
        operation_name: None,
        variables: None,
        extensions: hash.map(|h| GraphQLExtensions {
            persisted_query: Some(PersistedQuery {
                sha256_hash: h.to_string(),
                version: 1,
            }),
        }),
    }
}

#[test]
fn status_codes() {
    assert_eq!(AppError::BadRequest("x".to_string()).status_code(), 400);
    assert_eq!(
        AppError::CostExceeded(CostError::TooDeep { depth: 3, max: 2 }).status_code(),
        429
    );
    assert_eq!(AppError::ApqNotFound.status_code(), 200);
    assert_eq!(AppError::Coalescing("x".to_string()).status_code(), 500);
    assert_eq!(AppError::cost_code(), "COST_LIMIT_EXCEEDED");
}

#[test]
fn cost_errors_convert() {
    let e: AppError = CostError::TooExpensive { cost: 9, max: 5 }.into();
    assert!(matches!(e, AppError::CostExceeded(CostError::TooExpensive { cost: 9, max: 5 })));
}

#[test]
fn plain_query_is_taken() {
    let mut cache = ApqCache::new(10);
    let mut req = request(Some("{ a }"), None);
    assert_eq!(resolve_apq(&mut req, &mut cache).ok(), Some("{ a }".to_string()));
    assert!(req.query.is_none());
    assert!(cache.is_empty());
}

#[test]
fn missing_query_is_a_bad_request() {
    let mut cache = ApqCache::new(10);
    let mut req = request(None, None);
    match resolve_apq(&mut req, &mut cache) {
        Err(AppError::BadRequest(m)) => assert_eq!(m, "missing query or persistedQuery extension"),
        _ => panic!("expected BadRequest"),
    }
}

#[test]
fn unknown_hash_is_not_found() {
    let mut cache = ApqCache::new(10);
    let hash = query_hash("{ a }");
    let mut req = request(None, Some(&hash));
    assert!(matches!(resolve_apq(&mut req, &mut cache), Err(AppError::ApqNotFound)));
}

#[test]
fn persisted_query_round_trip() {
    let mut cache = ApqCache::new(10);
    let hash = query_hash("{ a }");
    // First request: hash only, not yet cached.
    let mut first = request(None, Some(&hash));
    assert!(matches!(resolve_apq(&mut first, &mut cache), Err(AppError::ApqNotFound)));
    // Second request: hash and query; the query is cached.
    let mut second = request(Some("{ a }"), Some(&hash));
    assert_eq!(resolve_apq(&mut second, &mut cache).ok(), Some("{ a }".to_string()));
    assert_eq!(cache.len(), 1);
    // Third request: the hash alone now resolves.
    let mut third = request(None, Some(&hash));
    assert_eq!(resolve_apq(&mut third, &mut cache).ok(), Some("{ a }".to_string()));
}

#[test]
fn extensions_without_persisted_query_use_the_query() {
    let mut cache = ApqCache::new(10);
    let mut req = GraphQLRequest {
        query: Some("{ b }".to_string()),
        operation_name: Some("B".to_string()),
        variables: None,
        extensions: Some(GraphQLExtensions { persisted_query: None }),
    };
    assert_eq!(resolve_apq(&mut req, &mut cache).ok(), Some("{ b }".to_string()));
    assert_eq!(req.operation_name, Some("B".to_string()));
}

#[test]
fn screening_accepts_within_limits() {
    let mut cache = ApqCache::new(10);
    let analyzer = CostAnalyzer::new(CostConfig::default());
    let mut req = request(Some("query { article(ean: \"1\") { ean name brand } }"), None);
    req.operation_name = Some("Op".to_string());
    let s = screen_request(&mut req, &mut cache, &analyzer).ok().unwrap();
    assert_eq!(s.query, "query { article(ean: \"1\") { ean name brand } }");
    assert_eq!(s.cost, 8);
    assert_eq!(
        s.key,
        Coalescer::make_key(Some("query { article(ean: \"1\") { ean name brand } }"), Some("Op"), None)
    );
}

#[test]
fn screening_rejects_expensive_queries() {
    let mut cache = ApqCache::new(10);
    let analyzer = CostAnalyzer::new(CostConfig { max_cost: 5, max_depth: 10, field_costs: None });
    let mut req = request(Some("query { article(ean: \"1\") { ean name brand } }"), None);
    match screen_request(&mut req, &mut cache, &analyzer) {
        Err(e) => {
            assert_eq!(e.status_code(), 429);
            assert!(matches!(e, AppError::CostExceeded(CostError::TooExpensive { cost: 8, max: 5 })));
        }
        Ok(_) => panic!("expected a cost rejection"),
    }
}

#[test]
fn screening_passes_resolution_errors_on() {
    let mut cache = ApqCache::new(10);
    let analyzer = CostAnalyzer::new(CostConfig::default());
    let hash = query_hash("{ a }");
    let mut req = request(None, Some(&hash));
    assert!(matches!(screen_request(&mut req, &mut cache, &analyzer), Err(AppError::ApqNotFound)));
}
