use vellum::card::character_validate_v2;

#[test]
fn valid_card_passes() {
    let raw = "{\"spec\":\"chara_card_v2\",\"spec_version\":\"2.0\",\"data\":{\"name\":\"Ava\"}}";
    let result = character_validate_v2(raw.to_string()).unwrap();
    assert!(result.valid);
    assert!(result.errors.is_empty());
}

#[test]
fn broken_json_reports_parse_error() {
    let result = character_validate_v2("{not json".to_string()).unwrap();
    assert!(!result.valid);
    assert_eq!(result.errors.len(), 1);
    assert!(result.errors[0].starts_with("Invalid JSON: "));
}

#[test]
fn wrong_spec_field_is_reported() {
    let raw = "{\"spec\":\"other\",\"data\":{}}";
    let result = character_validate_v2(raw.to_string()).unwrap();
    assert!(!result.valid);
    assert_eq!(result.errors, vec!["spec must be chara_card_v2".to_string()]);
}

#[test]
fn missing_data_is_reported() {
    let raw = "{\"spec\":\"chara_card_v2\"}";
    let result = character_validate_v2(raw.to_string()).unwrap();
    assert!(!result.valid);
    assert_eq!(result.errors, vec!["missing data object".to_string()]);
}

#[test]
fn both_problems_are_reported_in_order() {
    let result = character_validate_v2("42".to_string()).unwrap();
    assert!(!result.valid);
    assert_eq!(
        result.errors,
        vec![
            "spec must be chara_card_v2".to_string(),
            "missing data object".to_string()
        ]
    );
}
