//! Tests for the validation, formatting and export helpers.
use http_client::model::{BodyType, HTTPMethod, HttpRequest, KeyValue};
use http_client::utils::export;
use http_client::utils::json_formatter;
use http_client::utils::text_formatter;
use http_client::utils::url_validator;

#[test]
fn test_url_validation() {
    assert!(url_validator::is_valid("https://example.com"));
    assert!(!url_validator::is_valid(""));
    assert!(!url_validator::is_valid("not a url"));
}

#[test]
fn test_json_formatter() {
    let json = r#"{"name":"John","age":30}"#;
    assert!(json_formatter::is_valid_json(json));
    assert!(json_formatter::format(json).is_ok());
}

#[test]
fn test_duration_formatter() {
    assert_eq!(text_formatter::format_duration(500), "500ms");
    assert_eq!(text_formatter::format_duration(1500), "1.50s");
}

#[test]
fn format_duration_minutes() {
    assert_eq!(text_formatter::format_duration(65000), "1m 5s");
    assert_eq!(text_formatter::format_duration(60000), "1m 0s");
    assert_eq!(text_formatter::format_duration(999), "999ms");
    assert_eq!(text_formatter::format_duration(0), "0ms");
}

#[test]
fn format_bytes_units() {
    assert_eq!(text_formatter::format_bytes(0), "0 B");
    assert_eq!(text_formatter::format_bytes(500), "500 B");
    assert_eq!(text_formatter::format_bytes(2048), "2.00 KB");
    assert_eq!(text_formatter::format_bytes(1536), "1.50 KB");
    assert_eq!(text_formatter::format_bytes(1152), "1.12 KB");
    assert_eq!(text_formatter::format_bytes(3 * 1048576), "3.00 MB");
    assert_eq!(text_formatter::format_bytes(5 * 1073741824), "5.00 GB");
}

#[test]
fn truncate_counts_bytes() {
    assert_eq!(text_formatter::truncate("hello", 10), "hello");
    assert_eq!(text_formatter::truncate("hello world", 5), "hello...");
    assert_eq!(text_formatter::truncate("", 3), "");
    assert_eq!(text_formatter::truncate("h\u{e9}llo", 3), "h\u{e9}...");
}

#[test]
fn json_format_is_pretty() {
    let pretty = json_formatter::format(r#"{"a":1}"#).unwrap();
    assert_eq!(pretty, "{\n  \"a\": 1\n}");
    let err = json_formatter::format("{oops").unwrap_err();
    assert!(err.starts_with("Invalid JSON: "));
    assert!(err.len() > "Invalid JSON: ".len());
    assert!(!json_formatter::is_valid_json("{oops"));
}

#[test]
fn json_minify_strips_space() {
    let min = json_formatter::minify(" { \"a\" : 1 } ").unwrap();
    assert_eq!(min, r#"{"a":1}"#);
    let err = json_formatter::minify("nope{").unwrap_err();
    assert!(err.starts_with("Invalid JSON: "));
}

#[test]
fn extract_domain_reads_host() {
    assert_eq!(
        url_validator::extract_domain("https://example.com/path"),
        Some(String::from("example.com"))
    );
    assert_eq!(url_validator::extract_domain("not a url"), None);
}

#[test]
fn validate_and_normalize_messages() {
    assert_eq!(
        url_validator::validate_and_normalize("  example.com "),
        Ok(String::from("https://example.com"))
    );
    assert_eq!(
        url_validator::validate_and_normalize(""),
        Err(String::from("URL cannot be empty"))
    );
    let err = url_validator::validate_and_normalize("not a url").unwrap_err();
    assert!(err.starts_with("Invalid URL: "));
}

#[test]
fn to_curl_renders_command() {
    let request = HttpRequest {
        method: HTTPMethod::POST,
        url: String::from("example.com"),
        headers: vec![
            KeyValue::new(String::from("X-Token"), String::from("abc")),
            KeyValue {
                key: String::from("Skipped"),
                value: String::from("no"),
                enabled: false,
            },
        ],
        query_params: Vec::new(),
        body: String::from("it's data"),
        body_type: BodyType::Raw,
        timeout_ms: 30000,
    };
    let cmd = export::to_curl(&request, "https://example.com/");
    assert_eq!(
        cmd,
        "curl -X POST 'https://example.com/' \\\n  -H 'X-Token: abc' \\\n  -d 'it'\\''s data'"
    );
}

#[test]
fn to_curl_get_without_body() {
    let request = HttpRequest {
        method: HTTPMethod::GET,
        url: String::from("example.com"),
        headers: Vec::new(),
        query_params: Vec::new(),
        body: String::new(),
        body_type: BodyType::NoBody,
        timeout_ms: 30000,
    };
    let cmd = export::to_curl(&request, "https://example.com/");
    assert_eq!(cmd, "curl -X GET 'https://example.com/'");
}

#[test]
fn headers_to_string_joins_lines() {
    let headers = vec![
        KeyValue::new(String::from("A"), String::from("1")),
        KeyValue {
            key: String::from("Hidden"),
            value: String::from("x"),
            enabled: false,
        },
        KeyValue::new(String::from("B"), String::from("2")),
    ];
    assert_eq!(export::headers_to_string(&headers), "A: 1\nB: 2");
    assert_eq!(export::headers_to_string(&Vec::new()), "");
}
