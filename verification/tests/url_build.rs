//! Tests for URL normalization and query merging.
use http_client::model::KeyValue;
use http_client::url_build::{merge_query, normalize, ValidationError};

#[test]
fn normalize_trims_and_completes() {
    assert_eq!(normalize("  example.com "), Ok(String::from("https://example.com")));
}

#[test]
fn normalize_rejects_empty() {
    assert_eq!(normalize(""), Err(ValidationError::EmptyUrl));
    assert_eq!(normalize("   \t  "), Err(ValidationError::EmptyUrl));
}

#[test]
fn normalize_keeps_scheme() {
    assert_eq!(normalize("http://x"), Ok(String::from("http://x")));
    assert_eq!(normalize("https://x"), Ok(String::from("https://x")));
}

#[test]
fn normalize_reports_parser_message() {
    match normalize("not a url") {
        Err(ValidationError::InvalidUrl(detail)) => assert!(!detail.is_empty()),
        other => panic!("expected InvalidUrl, got {:?}", other),
    }
}

#[test]
fn merge_query_filters_disabled() {
    let params = vec![
        KeyValue::new(String::from("a"), String::from("1")),
        KeyValue {
            key: String::from("b"),
            value: String::from("2"),
            enabled: false,
        },
    ];
    assert_eq!(
        merge_query("https://x.com", &params),
        Ok(String::from("https://x.com/?a=1"))
    );
}

#[test]
fn merge_query_skips_empty_keys_keeps_empty_values() {
    let params = vec![
        KeyValue::new(String::new(), String::from("ignored")),
        KeyValue::new(String::from("k"), String::new()),
    ];
    assert_eq!(
        merge_query("https://x.com", &params),
        Ok(String::from("https://x.com/?k="))
    );
}

#[test]
fn merge_query_percent_encodes() {
    let params = vec![KeyValue::new(String::from("q"), String::from("hello world"))];
    assert_eq!(
        merge_query("https://x.com", &params),
        Ok(String::from("https://x.com/?q=hello+world"))
    );
}

#[test]
fn merge_query_preserves_existing_pairs() {
    let params = vec![KeyValue::new(String::from("b"), String::from("2"))];
    assert_eq!(
        merge_query("https://x.com/p?a=1", &params),
        Ok(String::from("https://x.com/p?a=1&b=2"))
    );
}

#[test]
fn merge_query_rejects_bad_base() {
    let params: Vec<KeyValue> = Vec::new();
    match merge_query("::: no", &params) {
        Err(ValidationError::InvalidUrl(_)) => {}
        other => panic!("expected InvalidUrl, got {:?}", other),
    }
}
