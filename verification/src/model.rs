//! The shared value types: request, response, key/value rows, history
//! entries, and their spec-level views.
use vstd::prelude::*;
use vstd::string::StringExecFns;

verus! {

/// Timeout applied to a request when the caller supplies none.
pub const DEFAULT_TIMEOUT_MS: u64 = 30000;

/// The supported HTTP methods. `GET` is the only method that never
/// carries a body.
#[derive(Debug, Clone, Copy, PartialEq, Eq, Structural)]
#[allow(clippy::upper_case_acronyms)]
pub enum HTTPMethod {
    GET,
    POST,
    PUT,
    PATCH,
    DELETE,
}

impl Default for HTTPMethod {
    fn default() -> (r: Self)
        ensures
            r == HTTPMethod::GET,
    {
        HTTPMethod::GET
    }
}

impl HTTPMethod {
    /// True exactly for the methods that may carry a request body.
    pub fn allows_body(self) -> (r: bool)
        ensures
            r == (self != HTTPMethod::GET),
    {
        !matches!(self, HTTPMethod::GET)
    }

    /// Every method, in the fixed presentation order.
    pub fn all() -> (r: Vec<HTTPMethod>)
        ensures
            r@ =~= seq![
                HTTPMethod::GET,
                HTTPMethod::POST,
                HTTPMethod::PUT,
                HTTPMethod::PATCH,
                HTTPMethod::DELETE,
            ],
    {
        let mut v: Vec<HTTPMethod> = Vec::new();
        v.push(HTTPMethod::GET);
        v.push(HTTPMethod::POST);
        v.push(HTTPMethod::PUT);
        v.push(HTTPMethod::PATCH);
        v.push(HTTPMethod::DELETE);
        v
    }

    /// The method's name, as it appears on the wire.
    pub fn label(self) -> (r: &'static str)
        ensures
            r@ == self.label_spec(),
    {
        proof {
            reveal_strlit("GET");
            reveal_strlit("POST");
            reveal_strlit("PUT");
            reveal_strlit("PATCH");
            reveal_strlit("DELETE");
        }
        match self {
            HTTPMethod::GET => "GET",
            HTTPMethod::POST => "POST",
            HTTPMethod::PUT => "PUT",
            HTTPMethod::PATCH => "PATCH",
            HTTPMethod::DELETE => "DELETE",
        }
    }

    pub open spec fn label_spec(self) -> Seq<char> {
        match self {
            HTTPMethod::GET => seq!['G', 'E', 'T'],
            HTTPMethod::POST => seq!['P', 'O', 'S', 'T'],
            HTTPMethod::PUT => seq!['P', 'U', 'T'],
            HTTPMethod::PATCH => seq!['P', 'A', 'T', 'C', 'H'],
            HTTPMethod::DELETE => seq!['D', 'E', 'L', 'E', 'T', 'E'],
        }
    }
}

/// One header or query-parameter row. Disabled rows are kept for
/// round-tripping but never transmitted. Order in a list of rows is
/// significant.
#[derive(Debug, Clone, PartialEq, Eq)]
pub struct KeyValue {
    pub key: String,
    pub value: String,
    pub enabled: bool,
}

/// Spec-level image of a [`KeyValue`] row.
pub ghost struct KeyValueView {
    pub key: Seq<char>,
    pub value: Seq<char>,
    pub enabled: bool,
}

impl View for KeyValue {
    type V = KeyValueView;

    open spec fn view(&self) -> KeyValueView {
        KeyValueView { key: self.key@, value: self.value@, enabled: self.enabled }
    }
}

impl KeyValue {
    /// A row with the given key and value, enabled.
    pub fn new(key: String, value: String) -> (r: Self)
        ensures
            r@.key == key@,
            r@.value == value@,
            r@.enabled,
    {
        Self { key, value, enabled: true }
    }

    /// An empty, enabled row.
    pub fn empty() -> (r: Self)
        ensures
            r@.key == Seq::<char>::empty(),
            r@.value == Seq::<char>::empty(),
            r@.enabled,
    {
        Self { key: String::new(), value: String::new(), enabled: true }
    }
}

/// A hint for body-attachment policy; it does not validate the body.
#[derive(Debug, Clone, Copy, PartialEq, Eq, Structural)]
pub enum BodyType {
    NoBody,
    Raw,
    Json,
}

impl Default for BodyType {
    fn default() -> (r: Self)
        ensures
            r == BodyType::NoBody,
    {
        BodyType::NoBody
    }
}

impl BodyType {
    /// The label shown for this body type.
    pub fn label(self) -> (r: &'static str)
        ensures
            r@ == self.label_spec(),
    {
        proof {
            reveal_strlit("None");
            reveal_strlit("Raw");
            reveal_strlit("JSON");
        }
        match self {
            BodyType::NoBody => "None",
            BodyType::Raw => "Raw",
            BodyType::Json => "JSON",
        }
    }

    pub open spec fn label_spec(self) -> Seq<char> {
        match self {
            BodyType::NoBody => seq!['N', 'o', 'n', 'e'],
            BodyType::Raw => seq!['R', 'a', 'w'],
            BodyType::Json => seq!['J', 'S', 'O', 'N'],
        }
    }
}

/// A request as assembled from user-edited fields.
#[derive(Debug, Clone, PartialEq)]
pub struct HttpRequest {
    pub method: HTTPMethod,
    pub url: String,
    pub headers: Vec<KeyValue>,
    pub query_params: Vec<KeyValue>,
    pub body: String,
    pub body_type: BodyType,
    pub timeout_ms: u64,
}

/// Spec-level image of an [`HttpRequest`].
pub ghost struct RequestView {
    pub method: HTTPMethod,
    pub url: Seq<char>,
    pub headers: Seq<KeyValueView>,
    pub query_params: Seq<KeyValueView>,
    pub body: Seq<char>,
    pub body_type: BodyType,
    pub timeout_ms: u64,
}

/// The views of a list of rows, in order.
pub open spec fn rows_view(s: Seq<KeyValue>) -> Seq<KeyValueView> {
    Seq::new(s.len(), |i: int| s[i]@)
}

/// The views of a list of string pairs, in order.
pub open spec fn pairs_view(s: Seq<(String, String)>) -> Seq<(Seq<char>, Seq<char>)> {
    Seq::new(s.len(), |i: int| (s[i].0@, s[i].1@))
}

impl View for HttpRequest {
    type V = RequestView;

    open spec fn view(&self) -> RequestView {
        RequestView {
            method: self.method,
            url: self.url@,
            headers: rows_view(self.headers@),
            query_params: rows_view(self.query_params@),
            body: self.body@,
            body_type: self.body_type,
            timeout_ms: self.timeout_ms,
        }
    }
}

impl Default for HttpRequest {
    /// A fresh GET request with one enabled `Content-Type` header and
    /// the default timeout.
    fn default() -> (r: Self)
        ensures
            r@.method == HTTPMethod::GET,
            r@.url == Seq::<char>::empty(),
            r@.headers.len() == 1,
            r@.headers[0].key == "Content-Type"@,
            r@.headers[0].value == "application/json"@,
            r@.headers[0].enabled,
            r@.query_params == Seq::<KeyValueView>::empty(),
            r@.body == Seq::<char>::empty(),
            r@.body_type == BodyType::NoBody,
            r@.timeout_ms == DEFAULT_TIMEOUT_MS,
    {
        let mut headers: Vec<KeyValue> = Vec::new();
        headers.push(
            KeyValue::new(
                String::from_str("Content-Type"),
                String::from_str("application/json"),
            ),
        );
        let r = Self {
            method: HTTPMethod::GET,
            url: String::new(),
            headers,
            query_params: Vec::new(),
            body: String::new(),
            body_type: BodyType::NoBody,
            timeout_ms: DEFAULT_TIMEOUT_MS,
        };
        proof {
            assert(r@.query_params =~= Seq::<KeyValueView>::empty());
        }
        r
    }
}

/// A normalized response: status, canonical reason phrase (or
/// `"Unknown"`), decoded body text, collapsed headers, and the elapsed
/// time of the whole exchange in milliseconds.
///
/// Headers are held as ordered name/value pairs; the executor
/// establishes that names are unique (duplicates collapse to the last
/// value observed).
#[derive(Debug, Clone, PartialEq)]
pub struct HttpResponse {
    pub status: u16,
    pub status_text: String,
    pub body: String,
    pub headers: Vec<(String, String)>,
    pub duration_ms: u128,
}

/// Spec-level image of an [`HttpResponse`].
pub ghost struct ResponseView {
    pub status: u16,
    pub status_text: Seq<char>,
    pub body: Seq<char>,
    pub headers: Seq<(Seq<char>, Seq<char>)>,
    pub duration_ms: u128,
}

impl View for HttpResponse {
    type V = ResponseView;

    open spec fn view(&self) -> ResponseView {
        ResponseView {
            status: self.status,
            status_text: self.status_text@,
            body: self.body@,
            headers: pairs_view(self.headers@),
            duration_ms: self.duration_ms,
        }
    }
}

/// One remembered exchange: the request, the response it produced,
/// and when it completed (unix seconds). Immutable once created.
#[derive(Debug, Clone, PartialEq)]
pub struct HistoryItem {
    pub request: HttpRequest,
    pub response: HttpResponse,
    pub timestamp: i64,
}

/// Spec-level image of a [`HistoryItem`].
pub ghost struct HistoryItemView {
    pub request: RequestView,
    pub response: ResponseView,
    pub timestamp: i64,
}

impl View for HistoryItem {
    type V = HistoryItemView;

    open spec fn view(&self) -> HistoryItemView {
        HistoryItemView {
            request: self.request@,
            response: self.response@,
            timestamp: self.timestamp,
        }
    }
}

/// Which request pane is selected.
#[derive(Debug, Clone, Copy, PartialEq, Eq, Structural)]
pub enum RequestTab {
    QueryParams,
    Headers,
    Body,
}

/// Which response pane is selected.
#[derive(Debug, Clone, Copy, PartialEq, Eq, Structural)]
pub enum ResponseTab {
    Body,
    Headers,
}

} // verus!
