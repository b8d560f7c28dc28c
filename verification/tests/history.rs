//! Tests for the bounded history store and its persisted form.
use http_client::history::RequestHistory;
use http_client::model::{BodyType, HTTPMethod, HttpRequest, HttpResponse, KeyValue};

fn request_for(url: &str) -> HttpRequest {
    HttpRequest {
        method: HTTPMethod::POST,
        url: String::from(url),
        headers: vec![
            KeyValue::new(String::from("Content-Type"), String::from("application/json")),
            KeyValue {
                key: String::from("X-Off"),
                value: String::from("kept"),
                enabled: false,
            },
        ],
        query_params: vec![KeyValue::new(String::from("q"), String::from("1"))],
        body: String::from("{\"n\": 1}"),
        body_type: BodyType::Json,
        timeout_ms: 2500,
    }
}

fn response_for(status: u16) -> HttpResponse {
    HttpResponse {
        status,
        status_text: String::from("OK"),
        body: String::from("done"),
        headers: vec![(String::from("content-length"), String::from("4"))],
        duration_ms: 42,
    }
}

#[test]
fn add_caps_at_fifty_dropping_oldest() {
    let mut history = RequestHistory::new();
    for i in 0..51i64 {
        let request = request_for(&format!("https://example.com/{}", i));
        history.add_item_with_timestamp(request, response_for(200), i);
    }
    assert_eq!(history.len(), 50);
    assert_eq!(history.get_item(0).unwrap().request.url, "https://example.com/50");
    for item in history.get_items() {
        assert_ne!(item.request.url, "https://example.com/0");
    }
    assert_eq!(history.get_items()[49].request.url, "https://example.com/1");
}

#[test]
fn add_item_stamps_time_and_prepends() {
    let mut history = RequestHistory::new();
    history.add_item(request_for("https://a"), response_for(200));
    history.add_item(request_for("https://b"), response_for(404));
    assert_eq!(history.len(), 2);
    assert_eq!(history.get_item(0).unwrap().request.url, "https://b");
    assert_eq!(history.get_item(1).unwrap().request.url, "https://a");
    assert!(history.get_item(0).unwrap().timestamp >= 0);
}

#[test]
fn clear_empties_store_and_persisted_form() {
    let mut history = RequestHistory::new();
    history.add_item_with_timestamp(request_for("https://a"), response_for(200), 7);
    assert!(!history.is_empty());
    history.clear();
    assert!(history.is_empty());
    let text = history.to_persisted_text();
    assert_eq!(text, "[]");
    let reloaded = RequestHistory::from_persisted_text(&text);
    assert_eq!(reloaded.len(), 0);
    assert!(reloaded.is_empty());
}

#[test]
fn persist_then_reload_round_trip() {
    let mut history = RequestHistory::new();
    let mut awkward = request_for("https://example.com/?q=\"quoted\"");
    awkward.body = String::from("line one\nline two\ttabbed \\ \"quoted\" \u{1} caf\u{e9}");
    awkward.headers.push(KeyValue::new(String::from("X-Mix"), String::from("a'b,c:d")));
    history.add_item_with_timestamp(awkward, response_for(201), -5);
    history.add_item_with_timestamp(request_for("https://second"), response_for(404), 0);
    history.add_item_with_timestamp(request_for("https://third"), response_for(500), 1700000000);

    let text = history.to_persisted_text();
    let reloaded = RequestHistory::from_persisted_text(&text);
    assert_eq!(reloaded.len(), history.len());
    for i in 0..history.len() {
        assert_eq!(reloaded.get_item(i).unwrap(), history.get_item(i).unwrap());
    }
}

#[test]
fn corrupt_text_reads_as_empty() {
    assert!(RequestHistory::from_persisted_text("").is_empty());
    assert!(RequestHistory::from_persisted_text("[{\"request\":").is_empty());
    assert!(RequestHistory::from_persisted_text("nonsense").is_empty());
}

#[test]
fn persisted_text_is_a_json_array() {
    let mut history = RequestHistory::new();
    history.add_item_with_timestamp(request_for("https://a"), response_for(200), 3);
    let text = history.to_persisted_text();
    assert!(text.starts_with("[{\"request\":{\"method\":\"POST\",\"url\":\"https://a\""));
    assert!(text.ends_with(",\"timestamp\":3}]"));
    assert!(http_client::utils::json_formatter::is_valid_json(&text));
}

#[test]
fn from_items_applies_capacity() {
    let mut items = Vec::new();
    for i in 0..60i64 {
        items.push(http_client::model::HistoryItem {
            request: request_for(&format!("https://example.com/{}", i)),
            response: response_for(200),
            timestamp: i,
        });
    }
    let history = RequestHistory::from_items(items);
    assert_eq!(history.len(), 50);
    assert_eq!(history.get_item(0).unwrap().timestamp, 0);
    assert_eq!(history.get_item(49).unwrap().timestamp, 49);
}

#[test]
fn get_item_is_bounds_checked() {
    let history = RequestHistory::new();
    assert!(history.get_item(0).is_none());
    let history = RequestHistory::default();
    assert!(history.is_empty());
}

#[test]
fn timestamp_parts_render_padded() {
    assert_eq!(
        RequestHistory::format_timestamp_parts(2024, 5, 3, 7, 8, 9),
        "03/05/2024 07:08:09"
    );
    assert_eq!(
        RequestHistory::format_timestamp_parts(99, 12, 31, 23, 59, 59),
        "31/12/0099 23:59:59"
    );
}

#[test]
fn format_timestamp_renders_a_date() {
    let text = RequestHistory::format_timestamp(0);
    assert_eq!(text.len(), 19);
    assert_eq!(&text[2..3], "/");
    assert_eq!(&text[5..6], "/");
}

#[test]
fn persisted_form_is_canonical_only() {
    let mut history = RequestHistory::new();
    history.add_item_with_timestamp(request_for("https://a"), response_for(200), 3);
    let text = history.to_persisted_text();
    let padded = text.replace(",\"timestamp\":", ", \"timestamp\": ");
    assert!(RequestHistory::from_persisted_text(&padded).is_empty());
    assert_eq!(RequestHistory::from_persisted_text(&text).len(), 1);
}

#[test]
fn reload_drops_entries_beyond_capacity() {
    let mut history = RequestHistory::new();
    for i in 0..50i64 {
        history.add_item_with_timestamp(request_for("https://a"), response_for(200), i);
    }
    let text = history.to_persisted_text();
    let reloaded = RequestHistory::from_persisted_text(&text);
    assert_eq!(reloaded.len(), 50);
    assert_eq!(reloaded.get_item(0).unwrap().timestamp, 49);
}
