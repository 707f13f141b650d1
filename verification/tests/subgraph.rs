use std::time::Duration;

use gateway::subgraph::{
    response_data, Fetch, GraphQlError, GraphQlResponse, LunarClient, PimClient, PriceClient,
    SubgraphConfig, SubgraphError,
};

fn remote_config() -> SubgraphConfig {
    SubgraphConfig {
        base_url: "http://pim.internal:4001".to_string(),
        timeout: Duration::from_secs(2),
        stub_mode: false,
    }
}

#[test]
fn stub_returns_seed_article() {
    let client = PimClient::new(SubgraphConfig::default());
    match client.get_article("000000000001000001") {
        Fetch::Done(Ok(article)) => {
            assert_eq!(article.name, "EDEKA Bio Vollmilch 3,8%");
            assert_eq!(article.brand, "EDEKA Bio");
        }
        _ => panic!("expected a stub article"),
    }
}

#[test]
fn pim_stub_unknown_matnr_returns_error() {
    let client = PimClient::new(SubgraphConfig::default());
    assert!(matches!(client.get_article("nonexistent"), Fetch::Done(Err(_))));
}

#[test]
fn stub_returns_seed_price() {
    let client = PriceClient::new(SubgraphConfig::default());
    match client.get_price("000000000001000001") {
        Fetch::Done(Ok(price)) => {
            assert_eq!(price.amount, 129);
            assert_eq!(price.currency, "EUR");
        }
        _ => panic!("expected a stub price"),
    }
}

#[test]
fn price_stub_unknown_matnr_returns_error() {
    let client = PriceClient::new(SubgraphConfig::default());
    assert!(matches!(client.get_price("nonexistent"), Fetch::Done(Err(_))));
}

#[test]
fn stub_returns_seed_data() {
    let client = LunarClient::new(SubgraphConfig::default());
    match client.get_erp_data("000000000001000001") {
        Fetch::Done(Ok(data)) => {
            assert_eq!(data.plant, "1000");
            assert_eq!(data.available_stock, Some(1_250_000));
        }
        _ => panic!("expected stub ERP data"),
    }
}

#[test]
fn lunar_stub_unknown_matnr_returns_error() {
    let client = LunarClient::new(SubgraphConfig::default());
    assert!(matches!(client.get_erp_data("nonexistent"), Fetch::Done(Err(_))));
}

// ---------------------------------------------------------------------------
// Further scenarios
// ---------------------------------------------------------------------------

#[test]
fn default_config() {
    let cfg = SubgraphConfig::default();
    assert_eq!(cfg.base_url, "http://localhost:4000");
    assert_eq!(cfg.timeout, Duration::from_secs(5));
    assert!(cfg.stub_mode);
}

#[test]
fn unknown_matnr_is_null_data() {
    let client = PimClient::new(SubgraphConfig::default());
    assert!(matches!(
        client.get_article("nonexistent"),
        Fetch::Done(Err(SubgraphError::NullData))
    ));
}

#[test]
fn remote_mode_asks_the_subgraph() {
    assert!(matches!(
        PimClient::new(remote_config()).get_article("000000000001000001"),
        Fetch::Remote
    ));
    assert!(matches!(
        PriceClient::new(remote_config()).get_price("000000000001000001"),
        Fetch::Remote
    ));
    assert!(matches!(
        LunarClient::new(remote_config()).get_erp_data("000000000001000001"),
        Fetch::Remote
    ));
}

#[test]
fn response_without_data_is_null_data() {
    let resp: GraphQlResponse<u32> = GraphQlResponse {
        data: None,
        errors: Some(vec![GraphQlError { message: "boom".to_string() }]),
    };
    assert!(matches!(response_data(resp), Err(SubgraphError::NullData)));
    let ok: GraphQlResponse<u32> = GraphQlResponse { data: Some(7), errors: None };
    assert!(matches!(response_data(ok), Ok(7)));
}

#[test]
fn stub_seed_values() {
    let prices = PriceClient::new(SubgraphConfig::default());
    match prices.get_price("000000000001000004") {
        Fetch::Done(Ok(p)) => {
            assert_eq!(p.amount, 499);
            assert_eq!(p.valid_from, Some("2025-01-01".to_string()));
            assert!(p.valid_to.is_none());
        }
        _ => panic!("expected a stub price"),
    }
    let erp = LunarClient::new(SubgraphConfig::default());
    match erp.get_erp_data("000000000001000005") {
        Fetch::Done(Ok(d)) => {
            assert_eq!(d.base_unit, "KG");
            assert_eq!(d.storage_location, "0005");
            assert_eq!(d.available_stock, Some(820_000));
        }
        _ => panic!("expected stub ERP data"),
    }
    let pim = PimClient::new(SubgraphConfig::default());
    match pim.get_article("000000000001000003") {
        Fetch::Done(Ok(a)) => {
            assert_eq!(a.ean, "4012345678903");
            assert_eq!(a.category_id, "cat-beverage");
        }
        _ => panic!("expected a stub article"),
    }
}

#[test]
fn query_documents() {
    assert!(PimClient::article_document().starts_with("query($matnr: String!) { article(matnr: $matnr)"));
    assert!(PriceClient::price_query().contains("price(matnr: $matnr)"));
    assert!(LunarClient::material_query().contains("material(matnr: $matnr)"));
}
