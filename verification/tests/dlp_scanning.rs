use ait::config::DlpConfig;
use ait::dlp::DlpScanner;
use ait::json::{parse_json, JsonValue};

fn config(enabled: bool, values: &[&str]) -> DlpConfig {
    DlpConfig { enabled, sensitive_values: values.iter().map(|s| s.to_string()).collect(), scan_numbers: false }
}

fn config_scanning_numbers(enabled: bool, values: &[&str]) -> DlpConfig {
    DlpConfig { scan_numbers: true, ..config(enabled, values) }
}

fn json(text: &str) -> JsonValue {
    parse_json(text.as_bytes()).expect("test body is JSON")
}

fn body(s: &str) -> JsonValue {
    let mut m = Vec::new();
    m.push(("content".to_string(), JsonValue::Str(s.to_string())));
    JsonValue::Object(m)
}

#[test]
fn disabled_scanner_matches_nothing() {
    let scanner = DlpScanner::new(&config(false, &["13800138000"]));
    assert!(scanner.scan(&body("my phone is 13800138000")).is_none());
}

#[test]
fn empty_values_never_blocks() {
    let scanner = DlpScanner::new(&config(true, &[]));
    assert!(scanner.scan(&body("13800138000")).is_none());
    assert!(!scanner.is_enabled());
}

#[test]
fn empty_strings_are_not_rules() {
    let scanner = DlpScanner::new(&config(true, &["", ""]));
    assert!(!scanner.is_enabled());
    assert!(scanner.scan(&body("anything")).is_none());
}

#[test]
fn matches_substring_in_string_value() {
    let scanner = DlpScanner::new(&config(true, &["13800138000"]));
    assert_eq!(scanner.scan(&body("my phone is 13800138000")), Some("13800138000"));
}

#[test]
fn does_not_match_embedded_in_different_value() {
    let scanner = DlpScanner::new(&config(true, &["13800138000"]));
    assert!(scanner.scan(&body("13800138001")).is_none());
}

#[test]
fn case_sensitive_match() {
    let scanner = DlpScanner::new(&config(true, &["sk-secretvalue"]));
    assert!(scanner.scan(&body("SK-SECRETVALUE")).is_none());
    assert_eq!(scanner.scan(&body("sk-secretvalue")), Some("sk-secretvalue"));
}

#[test]
fn ignores_object_keys() {
    let scanner = DlpScanner::new(&config(true, &["13800138000"]));
    let value = json(r#"{ "13800138000": "safe" }"#);
    assert!(scanner.scan(&value).is_none());
}

#[test]
fn scans_nested_arrays_and_objects() {
    let scanner = DlpScanner::new(&config(true, &["idcard"]));
    let value = json(
        r#"{"messages": [
            { "role": "user", "content": "here is idcard embedded" },
            { "role": "system", "content": "normal" }
        ]}"#,
    );
    assert_eq!(scanner.scan(&value), Some("idcard"));
}

#[test]
fn number_leaf_ignored_by_default() {
    let scanner = DlpScanner::new(&config(true, &["13800138000"]));
    assert!(scanner.scan(&json(r#"{"user_id": 13800138000}"#)).is_none());
    assert_eq!(scanner.scan(&body("my phone is 13800138000")), Some("13800138000"));
}

#[test]
fn number_leaf_matched_when_scan_numbers_enabled() {
    let scanner = DlpScanner::new(&config_scanning_numbers(true, &["13800138000"]));
    assert_eq!(scanner.scan(&json(r#"{"user_id": 13800138000}"#)), Some("13800138000"));
    assert_eq!(scanner.scan(&json(r#"{"a": [{"b": 13800138000}]}"#)), Some("13800138000"));
}

#[test]
fn scan_numbers_does_not_change_other_behaviour() {
    let scanner = DlpScanner::new(&config_scanning_numbers(true, &["13800138000"]));
    assert_eq!(scanner.scan(&body("my phone is 13800138000")), Some("13800138000"));
    assert!(scanner.scan(&json(r#"{"user_id": 13800138001}"#)).is_none());
    assert!(scanner.scan(&json(r#"{ "13800138000": "safe" }"#)).is_none());
}

#[test]
fn returns_first_configured_rule_on_match() {
    let scanner = DlpScanner::new(&config(true, &["aaa", "bbb"]));
    assert_eq!(scanner.scan(&body("bbb then aaa")), Some("aaa"));
    assert_eq!(scanner.scan(&body("aaa only")), Some("aaa"));
}

#[test]
fn earlier_rule_wins_across_leaves() {
    let scanner = DlpScanner::new(&config(true, &["first", "second"]));
    let value = json(r#"{"a": "second here", "b": ["and first there"]}"#);
    assert_eq!(scanner.scan(&value), Some("first"));
}

#[test]
fn non_string_leaves_are_ignored() {
    let scanner = DlpScanner::new(&config(true, &["true", "null"]));
    assert!(scanner.scan(&json(r#"{"a": true, "b": null}"#)).is_none());
}

#[test]
fn enabled_config_with_values_gives_active_scanner() {
    let scanner = DlpScanner::new(&config(true, &["", "13800138000"]));
    assert!(scanner.is_enabled());
    assert_eq!(scanner.scan(&body("my phone is 13800138000")), Some("13800138000"));
}
