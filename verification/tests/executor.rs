//! Tests for request assembly, response shaping, and failure
//! classification.
use http_client::executor::{
    build_response, classify_transport_error, prepare_request, TransportError,
};
use http_client::model::{BodyType, HTTPMethod, HttpRequest, KeyValue};
use http_client::url_build::ValidationError;

fn base_request() -> HttpRequest {
    HttpRequest {
        method: HTTPMethod::GET,
        url: String::from("https://example.com"),
        headers: Vec::new(),
        query_params: Vec::new(),
        body: String::new(),
        body_type: BodyType::NoBody,
        timeout_ms: 30000,
    }
}

#[test]
fn outgoing_headers_last_wins() {
    let mut request = base_request();
    request.headers = vec![
        KeyValue::new(String::from("X"), String::from("1")),
        KeyValue::new(String::from("X"), String::from("2")),
    ];
    let out = prepare_request(&request).unwrap();
    assert_eq!(out.headers, vec![(String::from("X"), String::from("2"))]);
}

#[test]
fn outgoing_headers_filter_and_order() {
    let mut request = base_request();
    request.headers = vec![
        KeyValue::new(String::from("A"), String::from("1")),
        KeyValue {
            key: String::from("B"),
            value: String::from("off"),
            enabled: false,
        },
        KeyValue::new(String::new(), String::from("anon")),
        KeyValue::new(String::from("C"), String::from("3")),
        KeyValue::new(String::from("A"), String::from("9")),
    ];
    let out = prepare_request(&request).unwrap();
    assert_eq!(
        out.headers,
        vec![
            (String::from("A"), String::from("9")),
            (String::from("C"), String::from("3")),
        ]
    );
}

#[test]
fn get_never_attaches_body() {
    let mut request = base_request();
    request.body = String::from("data");
    request.body_type = BodyType::Json;
    let out = prepare_request(&request).unwrap();
    assert!(out.body.is_none());
}

#[test]
fn post_attaches_body_when_typed() {
    let mut request = base_request();
    request.method = HTTPMethod::POST;
    request.body = String::from("data");
    request.body_type = BodyType::Json;
    let out = prepare_request(&request).unwrap();
    assert_eq!(out.body, Some(String::from("data")));

    request.body_type = BodyType::NoBody;
    let out = prepare_request(&request).unwrap();
    assert!(out.body.is_none());

    request.body_type = BodyType::Raw;
    request.body = String::new();
    let out = prepare_request(&request).unwrap();
    assert!(out.body.is_none());
}

#[test]
fn prepare_builds_full_url() {
    let mut request = base_request();
    request.url = String::from("  example.com ");
    request.query_params = vec![
        KeyValue::new(String::from("a"), String::from("1")),
        KeyValue {
            key: String::from("b"),
            value: String::from("2"),
            enabled: false,
        },
    ];
    let out = prepare_request(&request).unwrap();
    assert_eq!(out.url, "https://example.com/?a=1");
    assert_eq!(out.method, HTTPMethod::GET);
    assert_eq!(out.timeout_ms, 30000);
}

#[test]
fn prepare_rejects_before_any_attempt() {
    let mut request = base_request();
    request.url = String::new();
    assert_eq!(prepare_request(&request).unwrap_err(), ValidationError::EmptyUrl);

    request.url = String::from("not a url");
    match prepare_request(&request) {
        Err(ValidationError::InvalidUrl(_)) => {}
        other => panic!("expected InvalidUrl, got {:?}", other),
    }
}

#[test]
fn response_collapses_headers_last_observed() {
    let raw = vec![
        (String::from("set-cookie"), String::from("a=1")),
        (String::from("content-type"), String::from("text/plain")),
        (String::from("set-cookie"), String::from("b=2")),
    ];
    let response = build_response(
        200,
        Some(String::from("OK")),
        &raw,
        String::from("hi"),
        12,
    );
    assert_eq!(
        response.headers,
        vec![
            (String::from("set-cookie"), String::from("b=2")),
            (String::from("content-type"), String::from("text/plain")),
        ]
    );
    assert_eq!(response.status, 200);
    assert_eq!(response.status_text, "OK");
    assert_eq!(response.body, "hi");
    assert_eq!(response.duration_ms, 12);
}

#[test]
fn response_unknown_reason() {
    let response = build_response(599, None, &Vec::new(), String::new(), 1);
    assert_eq!(response.status_text, "Unknown");
}

#[test]
fn timeout_distinct_from_connection_failure() {
    let timeout = classify_transport_error(true, true, true, String::from("late"));
    assert_eq!(timeout, TransportError::Timeout);

    let connect = classify_transport_error(false, true, false, String::from("refused"));
    assert_eq!(
        connect,
        TransportError::ConnectionFailed(String::from("refused"))
    );
    assert_ne!(timeout, connect);

    let request_err = classify_transport_error(false, false, true, String::from("bad"));
    assert_eq!(request_err, TransportError::RequestError(String::from("bad")));

    let other = classify_transport_error(false, false, false, String::from("odd"));
    assert_eq!(other, TransportError::Other(String::from("odd")));
}

#[test]
fn error_messages_read_like_the_transport() {
    assert_eq!(
        TransportError::Timeout.message(),
        "Request timeout - the server took too long to respond"
    );
    assert_eq!(
        TransportError::ConnectionFailed(String::from("x")).message(),
        "Connection failed: x"
    );
    assert_eq!(
        TransportError::RequestError(String::from("x")).message(),
        "Request error: x"
    );
    assert_eq!(TransportError::Other(String::from("x")).message(), "HTTP error: x");
    assert_eq!(ValidationError::EmptyUrl.message(), "URL cannot be empty");
    assert_eq!(
        ValidationError::InvalidUrl(String::from("why")).message(),
        "Invalid URL: why"
    );
}
