use gateway::ingestion::IngestionWorker;
use gateway::metrics::LatencyTracker;
use gateway::pos_cache::{seed_pos_articles, PosArticle, PosCache};
use gateway::pos_handler::get_article_impl;

fn article(ean: &str, name: &str, price_amount: u64, deposit_amount: Option<u64>) -> PosArticle {
    PosArticle {
        ean: ean.into(),
        name: name.into(),
        price_amount,
        price_currency: "EUR".into(),
        brand: "B".into(),
        category: "C".into(),
        deposit_amount,
        age_restriction: None,
    }
}

#[test]
fn upsert_and_get() {
    let mut cache = PosCache::new();
    cache.upsert(PosArticle {
        ean: "4012345000010".into(),
        name: "Testartikel".into(),
        price_amount: 299,
        price_currency: "EUR".into(),
        brand: "Testmarke".into(),
        category: "Testkategorie".into(),
        deposit_amount: Some(25),
        age_restriction: None,
    });

    let found = cache.get("4012345000010").unwrap();
    assert_eq!(found.name, "Testartikel");
    assert_eq!(found.price_amount, 299);
    assert_eq!(found.deposit_amount, Some(25));
}

#[test]
fn missing_returns_none() {
    let cache = PosCache::new();
    assert!(cache.get("nonexistent").is_none());
}

#[test]
fn cache_upsert_overwrites() {
    let mut cache = PosCache::new();
    cache.upsert(article("overwrite", "Original", 100, None));
    cache.upsert(article("overwrite", "Updated", 200, None));

    assert_eq!(cache.get("overwrite").unwrap().name, "Updated");
    assert_eq!(cache.get("overwrite").unwrap().price_amount, 200);
    assert_eq!(cache.len(), 1);
}

#[test]
fn get_article_200() {
    let mut cache = PosCache::new();
    cache.upsert(PosArticle {
        ean: "4012345999999".into(),
        name: "Test Pfandbon".into(),
        price_amount: 15,
        price_currency: "EUR".into(),
        brand: "EDEKA".into(),
        category: "Pfand".into(),
        deposit_amount: None,
        age_restriction: None,
    });
    let mut metrics = LatencyTracker::new();
    let found = get_article_impl(&cache, &mut metrics, "4012345999999").unwrap();
    assert_eq!(found.ean, "4012345999999");
    assert_eq!(found.name, "Test Pfandbon");
    assert_eq!(found.price_amount, 15);
    assert_eq!(metrics.snapshot().total_requests, 1);
}

#[test]
fn get_article_404() {
    let cache = PosCache::new();
    let mut metrics = LatencyTracker::new();
    assert!(get_article_impl(&cache, &mut metrics, "nonexistent").is_none());
    assert_eq!(metrics.snapshot().total_requests, 1);
}

#[test]
fn metrics_endpoint() {
    let mut metrics = LatencyTracker::new();
    metrics.record(500);
    let snap = metrics.snapshot();
    assert_eq!(snap.total_requests, 1);
    assert_eq!(snap.avg_latency_us, 500);
}

#[test]
fn initial_load_populates_cache() {
    let mut worker = IngestionWorker::new(PosCache::new(), 1000);
    worker.initial_load();
    let cache = worker.cache();

    assert!(cache.len() >= 11);

    let milk = cache.get("4012345100000").unwrap();
    assert_eq!(milk.name, "EDEKA Bio Frischmilch 3,5% 1L");
    assert_eq!(milk.price_amount, 129);

    let cola = cache.get("4012345100002").unwrap();
    assert_eq!(cola.deposit_amount, Some(25));

    let tobacco = cache.get("4012345100010").unwrap();
    assert_eq!(tobacco.age_restriction, Some(18));
}

#[test]
fn missing_ean_returns_none() {
    let mut worker = IngestionWorker::new(PosCache::new(), 1000);
    worker.initial_load();
    assert!(worker.cache().get("0000000000000").is_none());
}

// ---------------------------------------------------------------------------
// Further scenarios
// ---------------------------------------------------------------------------

#[test]
fn seed_articles_are_twelve() {
    let seeds = seed_pos_articles();
    assert_eq!(seeds.len(), 12);
    let mut worker = IngestionWorker::new(PosCache::new(), 5000);
    assert_eq!(worker.article_count(), 12);
    assert_eq!(worker.interval_ms(), 5000);
    worker.initial_load();
    assert_eq!(worker.cache().len(), 12);
}

#[test]
fn price_update_reprices_one_article() {
    let mut worker = IngestionWorker::new(PosCache::new(), 1000);
    worker.initial_load();
    assert_eq!(worker.base_price(2), 149);
    worker.price_update(2, 155);
    let cola = worker.cache().get("4012345100002").unwrap();
    assert_eq!(cola.price_amount, 155);
    assert_eq!(cola.name, "Coca-Cola 1,5L PET");
    assert_eq!(cola.deposit_amount, Some(25));
    assert_eq!(worker.cache().len(), 12);
    assert_eq!(worker.cache().get("4012345100000").unwrap().price_amount, 129);
}

#[test]
fn load_all_keeps_the_last_duplicate() {
    let mut cache = PosCache::new();
    let batch = vec![
        article("a", "first", 1, None),
        article("b", "other", 2, Some(5)),
        article("a", "second", 3, None),
    ];
    cache.load_all(&batch);
    assert_eq!(cache.len(), 2);
    assert_eq!(cache.get("a").unwrap().name, "second");
    assert_eq!(cache.get("b").unwrap().deposit_amount, Some(5));
}

#[test]
fn default_cache_is_empty() {
    let cache = PosCache::default();
    assert_eq!(cache.len(), 0);
}
