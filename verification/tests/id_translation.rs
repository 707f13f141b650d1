use gateway::id_translation::{IdTranslator, MatnrEntry};

#[test]
fn translate_known_ean() {
    let translator = IdTranslator::with_seed_data();
    let entry = translator.translate("4012345678901").unwrap();
    assert_eq!(entry.matnr, "000000000001000001");
    assert_eq!(entry.material_type, "HAWA");
}

#[test]
fn translate_unknown_ean_returns_none() {
    let translator = IdTranslator::with_seed_data();
    assert!(translator.translate("0000000000000").is_none());
}

#[test]
fn whitelist_check() {
    let translator = IdTranslator::with_seed_data();
    assert!(translator.is_whitelisted("4012345678901"));
    assert!(!translator.is_whitelisted("9999999999999"));
}

#[test]
fn upsert_new_mapping() {
    let mut translator = IdTranslator::new();
    translator.upsert(MatnrEntry {
        ean: "1234567890123".into(),
        matnr: "MAT-001".into(),
        material_type: "FERT".into(),
    });
    assert!(translator.is_whitelisted("1234567890123"));
    assert_eq!(
        translator.translate("1234567890123").unwrap().matnr,
        "MAT-001"
    );
}

#[test]
fn id_translation_upsert_overwrites() {
    let mut translator = IdTranslator::with_seed_data();
    translator.upsert(MatnrEntry {
        ean: "4012345678901".into(),
        matnr: "UPDATED-MATNR".into(),
        material_type: "FERT".into(),
    });
    let entry = translator.translate("4012345678901").unwrap();
    assert_eq!(entry.matnr, "UPDATED-MATNR");
    assert_eq!(entry.material_type, "FERT");
}

// ---------------------------------------------------------------------------
// Further scenarios
// ---------------------------------------------------------------------------

#[test]
fn seed_data_holds_seventeen_mappings() {
    let translator = IdTranslator::with_seed_data();
    assert_eq!(translator.len(), 17);
    let mut eans = translator.known_eans();
    eans.sort();
    eans.dedup();
    assert_eq!(eans.len(), 17);
    assert!(eans.contains(&"4012345100010".to_string()));
}

#[test]
fn default_translator_is_seeded() {
    let translator = IdTranslator::default();
    assert_eq!(translator.len(), 17);
    let entry = translator.translate("4012345100003").unwrap();
    assert_eq!(entry.matnr, "000000000001000009");
    assert_eq!(entry.material_type, "FERT");
}

#[test]
fn upsert_leaves_other_mappings() {
    let mut translator = IdTranslator::with_seed_data();
    translator.upsert(MatnrEntry {
        ean: "4012345678901".into(),
        matnr: "UPDATED-MATNR".into(),
        material_type: "FERT".into(),
    });
    assert_eq!(translator.len(), 17);
    assert_eq!(
        translator.translate("4012345678902").unwrap().matnr,
        "000000000001000002"
    );
}

#[test]
fn new_translator_is_empty() {
    let translator = IdTranslator::new();
    assert_eq!(translator.len(), 0);
    assert!(!translator.is_whitelisted("4012345678901"));
    assert!(translator.known_eans().is_empty());
}
