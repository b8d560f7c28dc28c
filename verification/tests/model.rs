//! Tests for the shared value types.
use http_client::model::{BodyType, HTTPMethod, HttpRequest, KeyValue, DEFAULT_TIMEOUT_MS};

#[test]
fn methods_and_body_policy() {
    assert!(!HTTPMethod::GET.allows_body());
    assert!(HTTPMethod::POST.allows_body());
    assert!(HTTPMethod::PUT.allows_body());
    assert!(HTTPMethod::PATCH.allows_body());
    assert!(HTTPMethod::DELETE.allows_body());
    assert_eq!(
        HTTPMethod::all(),
        vec![
            HTTPMethod::GET,
            HTTPMethod::POST,
            HTTPMethod::PUT,
            HTTPMethod::PATCH,
            HTTPMethod::DELETE,
        ]
    );
    assert_eq!(HTTPMethod::GET.label(), "GET");
    assert_eq!(HTTPMethod::DELETE.label(), "DELETE");
}

#[test]
fn body_type_labels() {
    assert_eq!(BodyType::NoBody.label(), "None");
    assert_eq!(BodyType::Raw.label(), "Raw");
    assert_eq!(BodyType::Json.label(), "JSON");
    assert_eq!(BodyType::default(), BodyType::NoBody);
}

#[test]
fn key_value_constructors() {
    let kv = KeyValue::new(String::from("k"), String::from("v"));
    assert_eq!(kv.key, "k");
    assert_eq!(kv.value, "v");
    assert!(kv.enabled);
    let e = KeyValue::empty();
    assert_eq!(e.key, "");
    assert_eq!(e.value, "");
    assert!(e.enabled);
}

#[test]
fn default_request_shape() {
    let request = HttpRequest::default();
    assert_eq!(request.method, HTTPMethod::GET);
    assert_eq!(request.url, "");
    assert_eq!(request.headers.len(), 1);
    assert_eq!(request.headers[0].key, "Content-Type");
    assert_eq!(request.headers[0].value, "application/json");
    assert!(request.headers[0].enabled);
    assert!(request.query_params.is_empty());
    assert_eq!(request.body, "");
    assert_eq!(request.body_type, BodyType::NoBody);
    assert_eq!(request.timeout_ms, DEFAULT_TIMEOUT_MS);
    assert_eq!(DEFAULT_TIMEOUT_MS, 30000);
}
