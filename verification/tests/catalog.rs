use gateway::catalog::{base64_encode, Article, ArticleFilter, DataStore, QueryRoot};

fn filter() -> ArticleFilter {
    ArticleFilter {
        eans: None,
        category: None,
        brand: None,
        search: None,
    }
}

#[test]
fn article_by_ean() {
    let store = DataStore::with_seed_data();
    let article = QueryRoot.article(&store, "4012345678901").unwrap();
    assert_eq!(article.ean, "4012345678901");
    assert!(article.name(&store).contains("Vollmilch"));
    assert_eq!(article.brand(&store), "EDEKA Bio");
    let price = article.price(&store).unwrap();
    assert_eq!(price.amount, 129);
    assert_eq!(price.currency, "EUR");
}

#[test]
fn article_not_found_returns_null() {
    let store = DataStore::with_seed_data();
    assert!(QueryRoot.article(&store, "nonexistent").is_none());
}

#[test]
fn articles_with_filter() {
    let store = DataStore::with_seed_data();
    let mut f = filter();
    f.brand = Some("EDEKA Bio".to_string());
    let articles = QueryRoot.articles(&store, Some(f));
    assert_eq!(articles.len(), 1);
    assert_eq!(articles[0].ean, "4012345678901");
}

#[test]
fn search_by_query() {
    let store = DataStore::with_seed_data();
    let result = QueryRoot.search(&store, "EDEKA", 20);
    assert!(result.total_count >= 3);
}

#[test]
fn nested_category_in_query() {
    let store = DataStore::with_seed_data();
    let article = QueryRoot.article(&store, "4012345678901").unwrap();
    let category = article.category(&store).unwrap();
    assert_eq!(category.name, "Milchprodukte");
    assert_eq!(category.id, "cat-milk");
}

// ---------------------------------------------------------------------------
// Further scenarios
// ---------------------------------------------------------------------------

#[test]
fn base64_matches_the_standard_alphabet() {
    assert_eq!(base64_encode(""), "");
    assert_eq!(base64_encode("a"), "YQ==");
    assert_eq!(base64_encode("ab"), "YWI=");
    assert_eq!(base64_encode("abc"), "YWJj");
    assert_eq!(base64_encode("Grüße"), "R3LDvMOfZQ==");
    assert_eq!(base64_encode("cursor:12"), "Y3Vyc29yOjEy");
}

#[test]
fn search_edges_carry_position_cursors() {
    let store = DataStore::with_seed_data();
    let result = QueryRoot.search(&store, "EDEKA", 20);
    assert_eq!(result.total_count, 3);
    assert_eq!(result.edges.len(), 3);
    assert_eq!(result.edges[0].cursor, "Y3Vyc29yOjA=");
    assert_eq!(result.edges[1].cursor, "Y3Vyc29yOjE=");
    assert_eq!(result.edges[0].node.ean, "4012345678901");
    assert_eq!(result.edges[1].node.ean, "4012345678904");
    assert_eq!(result.edges[2].node.ean, "4012345678905");
}

#[test]
fn search_ignores_case_and_reads_descriptions() {
    let store = DataStore::with_seed_data();
    let result = QueryRoot.search(&store, "liter", 20);
    // "1 Liter" and "1,5 Liter" appear in descriptions only.
    assert_eq!(result.total_count, 2);
    assert_eq!(result.edges[0].node.ean, "4012345678901");
    assert_eq!(result.edges[1].node.ean, "4012345678903");
}

#[test]
fn search_page_size_is_clamped() {
    let store = DataStore::with_seed_data();
    let one = QueryRoot.search(&store, "EDEKA", 0);
    assert_eq!(one.total_count, 1);
    let two = QueryRoot.search(&store, "EDEKA", 2);
    assert_eq!(two.total_count, 2);
    let all = QueryRoot.search(&store, "", 1000);
    assert_eq!(all.total_count, 5);
}

#[test]
fn articles_without_filter_lists_everything() {
    let store = DataStore::with_seed_data();
    let articles = QueryRoot.articles(&store, None);
    let eans: Vec<String> = articles.into_iter().map(|a| a.ean).collect();
    assert_eq!(
        eans,
        vec![
            "4012345678901",
            "4012345678902",
            "4012345678903",
            "4012345678904",
            "4012345678905"
        ]
    );
}

#[test]
fn articles_filters_combine() {
    let store = DataStore::with_seed_data();
    let mut f = filter();
    f.brand = Some("edeka".to_string());
    f.category = Some("fisch".to_string());
    let articles = QueryRoot.articles(&store, Some(f));
    assert_eq!(articles.len(), 1);
    assert_eq!(articles[0].ean, "4012345678904");

    let mut g = filter();
    g.eans = Some(vec!["4012345678903".to_string(), "4012345678905".to_string()]);
    g.search = Some("äpfel".to_string());
    let articles = QueryRoot.articles(&store, Some(g));
    assert_eq!(articles.len(), 1);
    assert_eq!(articles[0].ean, "4012345678905");
}

#[test]
fn unknown_article_resolves_to_defaults() {
    let store = DataStore::with_seed_data();
    let ghost = Article { ean: "0000000000000".to_string() };
    assert_eq!(ghost.name(&store), "");
    assert_eq!(ghost.brand(&store), "");
    assert!(ghost.description(&store).is_none());
    assert!(ghost.category(&store).is_none());
    assert!(ghost.image_url(&store).is_none());
    assert!(ghost.price(&store).is_none());
    assert!(Article::resolve_by_ean("0000000000000", &store).is_none());
}

#[test]
fn article_fields_resolve() {
    let store = DataStore::with_seed_data();
    let a = Article::resolve_by_ean("4012345678903", &store).unwrap();
    assert_eq!(a.name(&store), "Coca-Cola 1,5L");
    assert_eq!(a.description(&store), Some("Erfrischungsgetränk, 1,5 Liter".to_string()));
    assert_eq!(
        a.image_url(&store),
        Some("https://cdn.edeka.de/images/articles/4012345678903.jpg".to_string())
    );
    let p = a.price(&store).unwrap();
    assert_eq!(p.amount, 149);
    assert_eq!(p.valid_from, Some("2025-01-01".to_string()));
    assert!(p.valid_to.is_none());
}

#[test]
fn default_store_is_empty() {
    let store = DataStore::default();
    assert!(!store.contains_key("4012345678901"));
    assert!(QueryRoot.articles(&store, None).is_empty());
    assert_eq!(QueryRoot.search(&store, "", 10).total_count, 0);
}

#[test]
fn search_agrees_with_a_search_only_listing() {
    let store = DataStore::with_seed_data();
    for q in ["EDEKA", "liter", "", "äpfel", "nothing-matches"] {
        let mut f = filter();
        f.search = Some(q.to_string());
        let listed: Vec<String> = QueryRoot
            .articles(&store, Some(f))
            .into_iter()
            .map(|a| a.ean)
            .collect();
        let found: Vec<String> = QueryRoot
            .search(&store, q, 100)
            .edges
            .into_iter()
            .map(|e| e.node.ean)
            .collect();
        assert_eq!(listed, found, "query {:?}", q);
    }
}

#[test]
fn cursors_have_base64_length() {
    let store = DataStore::with_seed_data();
    let page = QueryRoot.search(&store, "", 100);
    for (i, edge) in page.edges.iter().enumerate() {
        let plain = format!("cursor:{}", i);
        assert_eq!(edge.cursor.len(), 4 * ((plain.len() + 2) / 3));
        assert_eq!(edge.cursor, base64_encode(&plain));
    }
}
