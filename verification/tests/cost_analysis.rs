use gateway::cost_analysis::{CostAnalyzer, CostConfig, CostError};

fn analyzer(max_cost: u32, max_depth: u32) -> CostAnalyzer {
    CostAnalyzer::new(CostConfig {
        max_cost,
        max_depth,
        ..Default::default()
    })
}

#[test]
fn simple_scalar_query() {
    let a = analyzer(100, 10);
    let cost = a.analyze("{ __typename }").ok().unwrap();
    assert_eq!(cost, 0);
}

#[test]
fn single_object_query() {
    let a = analyzer(100, 10);
    let cost = a
        .analyze("query { article(ean: \"123\") { ean name brand } }")
        .ok()
        .unwrap();
    assert_eq!(cost, 8);
}

#[test]
fn nested_object_query() {
    let a = analyzer(100, 10);
    let cost = a
        .analyze(
            "query { article(ean: \"123\") { ean name category { id name } price { amount currency } } }",
        )
        .ok()
        .unwrap();
    assert_eq!(cost, 18);
}

#[test]
fn list_query_costs_more() {
    let a = analyzer(100, 10);
    let cost = a.analyze("query { articles { ean name } }").ok().unwrap();
    assert_eq!(cost, 9);
}

#[test]
fn connection_query_costs_more() {
    let a = analyzer(100, 10);
    let cost = a
        .analyze("query { search(query: \"milch\") { edges { node { ean name } } } }")
        .ok()
        .unwrap();
    assert_eq!(cost, 13);
}

#[test]
fn cost_exceeds_max() {
    let a = analyzer(5, 10);
    let err = a
        .analyze("query { article(ean: \"1\") { ean name brand } }")
        .err()
        .unwrap();
    assert!(matches!(err, CostError::TooExpensive { .. }));
}

#[test]
fn depth_exceeds_max() {
    let a = analyzer(100, 2);
    let err = a.analyze("{ a { b { c } } }").err().unwrap();
    assert!(matches!(err, CostError::TooDeep { .. }));
}

#[test]
fn multiple_top_level_fields() {
    let a = analyzer(100, 10);
    let cost = a
        .analyze("{ a1: article(ean:\"1\") { ean } a2: article(ean:\"2\") { ean } }")
        .ok()
        .unwrap();
    assert_eq!(cost, 8);
}

#[test]
fn fragment_spread_in_query() {
    let a = analyzer(100, 10);
    let query = r#"
            fragment artFields on Article { ean name brand }
            query { article(ean: "1") { ...artFields } }
        "#;
    let cost = a.analyze(query).ok().unwrap();
    assert_eq!(cost, 4);
}

#[test]
fn inline_fragment() {
    let a = analyzer(100, 10);
    let cost = a
        .analyze(r#"query { articles { ... on Article { ean name } } }"#)
        .ok()
        .unwrap();
    assert_eq!(cost, 11);
}

#[test]
fn comments_and_whitespace() {
    let a = analyzer(100, 10);
    let cost = a
        .analyze("# get article\n  query   { article(ean:\"42\") { ean\n# field\nname } }")
        .ok()
        .unwrap();
    assert_eq!(cost, 6);
}

// ---------------------------------------------------------------------------
// Further scenarios
// ---------------------------------------------------------------------------

#[test]
fn default_limits() {
    let cfg = CostConfig::default();
    assert_eq!(cfg.max_cost, 100);
    assert_eq!(cfg.max_depth, 10);
    assert!(cfg.field_costs.is_none());
}

#[test]
fn too_expensive_reports_cost_and_limit() {
    let a = analyzer(5, 10);
    match a.analyze("query { article(ean: \"1\") { ean name brand } }") {
        Err(CostError::TooExpensive { cost, max }) => {
            assert_eq!(cost, 8);
            assert_eq!(max, 5);
        }
        _ => panic!("expected TooExpensive"),
    }
}

#[test]
fn too_deep_reports_depth_and_limit() {
    let a = analyzer(100, 2);
    match a.analyze("{ a { b { c } } }") {
        Err(CostError::TooDeep { depth, max }) => {
            // each leaf field counts one level below its selection set
            assert_eq!(depth, 4);
            assert_eq!(max, 2);
        }
        _ => panic!("expected TooDeep"),
    }
}

#[test]
fn depth_limit_is_inclusive() {
    let a = analyzer(100, 4);
    assert_eq!(a.analyze("{ a { b { c } } }").ok(), Some(6));
    let b = analyzer(100, 3);
    assert!(b.analyze("{ a { b { c } } }").is_err());
}

#[test]
fn cost_limit_is_inclusive() {
    let a = analyzer(8, 10);
    assert_eq!(
        a.analyze("query { article(ean: \"1\") { ean name brand } }").ok(),
        Some(8)
    );
}

#[test]
fn unterminated_selection_is_a_parse_error() {
    let a = analyzer(100, 10);
    match a.analyze("{ article { ean ") {
        Err(CostError::ParseError(msg)) => assert_eq!(msg, "unterminated selection set"),
        _ => panic!("expected ParseError"),
    }
}

#[test]
fn missing_brace_is_a_parse_error() {
    let a = analyzer(100, 10);
    match a.analyze("query article") {
        Err(CostError::ParseError(msg)) => assert_eq!(msg, "expected '{' at position 13"),
        _ => panic!("expected ParseError"),
    }
}

#[test]
fn empty_document_costs_nothing() {
    let a = analyzer(100, 10);
    assert_eq!(a.analyze("").ok(), Some(0));
    assert_eq!(a.analyze("   \n# only a comment\n").ok(), Some(0));
}

#[test]
fn field_cost_overrides_take_the_first_entry() {
    let a = CostAnalyzer::new(CostConfig {
        max_cost: 100,
        max_depth: 10,
        field_costs: Some(vec![("ean".to_string(), 7), ("ean".to_string(), 1)]),
    });
    // article=2 + ean=7
    assert_eq!(a.analyze("{ article { ean } }").ok(), Some(9));
}

#[test]
fn introspection_fields_are_free() {
    let a = analyzer(100, 10);
    assert_eq!(a.analyze("{ __schema { __type } }").ok(), Some(0));
}

#[test]
fn list_names_cost_like_entry_points() {
    let a = analyzer(100, 10);
    // articleList=5 (ends in "list"), priceConnection=5 (contains "connection")
    assert_eq!(a.analyze("{ articleList priceConnection }").ok(), Some(10));
}

#[test]
fn mutation_operations_are_analysed() {
    let a = analyzer(100, 10);
    assert_eq!(a.analyze("mutation Save { save { ok } }").ok(), Some(4));
}

#[test]
fn cost_error_messages() {
    assert_eq!(
        CostError::TooExpensive { cost: 120, max: 100 }.message(),
        "query cost 120 exceeds max 100"
    );
    assert_eq!(
        CostError::TooDeep { depth: 11, max: 10 }.message(),
        "query depth 11 exceeds max 10"
    );
    assert_eq!(
        CostError::ParseError("oops".to_string()).message(),
        "parse error: oops"
    );
}

#[test]
fn raising_limits_keeps_the_cost() {
    let q = "query { article(ean: \"1\") { ean name brand } }";
    let strict = analyzer(8, 3).analyze(q).ok();
    let loose = analyzer(1000, 50).analyze(q).ok();
    assert_eq!(strict, Some(8));
    assert_eq!(loose, strict);
}

#[test]
fn aliased_fields_cost_by_name() {
    let a = analyzer(100, 10);
    // articles=5 + ean=2, whatever the alias
    assert_eq!(a.analyze("{ a: articles { ean } }").ok(), Some(7));
    assert_eq!(a.analyze("{ articles { ean } }").ok(), Some(7));
    assert_eq!(a.analyze("{ hits : search(query: \"x\") { edges { node { ean } } } }").ok(), Some(11));
}

#[test]
fn commas_between_selections_are_skipped() {
    let a = analyzer(100, 10);
    assert_eq!(a.analyze("{ a, b }").ok(), Some(4));
    assert_eq!(a.analyze("{ , }").ok(), Some(0));
    assert_eq!(
        a.analyze("{ a1: article(ean:\"1\") { ean }, a2: article(ean:\"2\") { ean } }").ok(),
        Some(8)
    );
}

#[test]
fn commas_outside_selection_sets_are_not_skipped() {
    let a = analyzer(100, 10);
    // the document ends where a comma follows the first operation
    assert_eq!(a.analyze("{ a } , { b }").ok(), Some(2));
    match a.analyze("query, { a }") {
        Err(CostError::ParseError(msg)) => assert_eq!(msg, "expected '{' at position 5"),
        _ => panic!("expected ParseError"),
    }
}

#[test]
fn deep_malformed_query_is_a_parse_error() {
    let a = analyzer(100, 1);
    match a.analyze("{ a { b { c } ") {
        Err(CostError::ParseError(msg)) => assert_eq!(msg, "unterminated selection set"),
        _ => panic!("expected ParseError"),
    }
}

#[test]
fn leaf_depth_counts_below_its_set() {
    let a = analyzer(100, 3);
    // sets open at depths 1..3; the leaf c lies at depth 4, the depth reported
    match a.analyze("{ a { b { c } } }") {
        Err(CostError::TooDeep { depth, max }) => {
            assert_eq!(depth, 4);
            assert_eq!(max, 3);
        }
        _ => panic!("expected TooDeep"),
    }
}
