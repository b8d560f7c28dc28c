//! Request assembly and response normalization: everything `send`
//! decides before and after the wire — validation, the outgoing
//! header set, the body-attachment policy, response shaping, and the
//! classification of transport failures.
use vstd::prelude::*;
use vstd::string::StringExecFns;
use crate::kv::{
    build_outgoing_pairs, collapse_pairs, collapse_received_pairs, enabled_pairs, unique_keys,
};
use crate::model::{pairs_view, BodyType, HTTPMethod, HttpRequest, HttpResponse, RequestView};
use crate::text::trim_spec;
use crate::url_build::{
    merge_query, normalize, normalize_candidate, url_parse_of, url_with_query_of, ValidationError,
};

verus! {

/// How a completed network attempt failed.
#[derive(Debug, Clone, PartialEq, Eq)]
pub enum TransportError {
    /// The deadline elapsed before the exchange completed.
    Timeout,
    /// The connection could not be established or kept.
    ConnectionFailed(String),
    /// The request was malformed or rejected at the protocol layer.
    RequestError(String),
    /// Anything else; keeps the underlying message.
    Other(String),
}

impl ValidationError {
    pub open spec fn message_spec(self) -> Seq<char> {
        match self {
            ValidationError::EmptyUrl => "URL cannot be empty"@,
            ValidationError::InvalidUrl(d) => "Invalid URL: "@ + d@,
        }
    }

    /// The user-facing message for this rejection.
    pub fn message(&self) -> (r: String)
        ensures
            r@ == self.message_spec(),
    {
        match self {
            ValidationError::EmptyUrl => String::from_str("URL cannot be empty"),
            ValidationError::InvalidUrl(d) => {
                let mut s = String::from_str("Invalid URL: ");
                s.append(d.as_str());
                s
            }
        }
    }
}

impl TransportError {
    pub open spec fn message_spec(self) -> Seq<char> {
        match self {
            TransportError::Timeout => "Request timeout - the server took too long to respond"@,
            TransportError::ConnectionFailed(d) => "Connection failed: "@ + d@,
            TransportError::RequestError(d) => "Request error: "@ + d@,
            TransportError::Other(d) => "HTTP error: "@ + d@,
        }
    }

    /// The user-facing message for this failure.
    pub fn message(&self) -> (r: String)
        ensures
            r@ == self.message_spec(),
    {
        match self {
            TransportError::Timeout => String::from_str(
                "Request timeout - the server took too long to respond",
            ),
            TransportError::ConnectionFailed(d) => {
                let mut s = String::from_str("Connection failed: ");
                s.append(d.as_str());
                s
            }
            TransportError::RequestError(d) => {
                let mut s = String::from_str("Request error: ");
                s.append(d.as_str());
                s
            }
            TransportError::Other(d) => {
                let mut s = String::from_str("HTTP error: ");
                s.append(d.as_str());
                s
            }
        }
    }
}

/// Sorts a transport failure into its class, from the three flags a
/// transport reports about the failure, in that priority order:
/// deadline expiry, connection trouble, protocol-level rejection,
/// anything else. The flags for a timeout and for a failed connection
/// can never land in one another's class.
pub fn classify_transport_error(
    timed_out: bool,
    connect_failed: bool,
    request_rejected: bool,
    detail: String,
) -> (r: TransportError)
    ensures
        timed_out ==> r is Timeout,
        (!timed_out && connect_failed) ==> (r matches TransportError::ConnectionFailed(d) && d@
            == detail@),
        (!timed_out && !connect_failed && request_rejected) ==> (r
            matches TransportError::RequestError(d) && d@ == detail@),
        (!timed_out && !connect_failed && !request_rejected) ==> (r matches TransportError::Other(
            d,
        ) && d@ == detail@),
{
    if timed_out {
        TransportError::Timeout
    } else if connect_failed {
        TransportError::ConnectionFailed(detail)
    } else if request_rejected {
        TransportError::RequestError(detail)
    } else {
        TransportError::Other(detail)
    }
}

/// Whether a request carries its body onto the wire: never for `GET`,
/// never for an empty body, never when no body type is chosen.
pub open spec fn should_send_body(r: RequestView) -> bool {
    r.method != HTTPMethod::GET && r.body.len() > 0 && r.body_type != BodyType::NoBody
}

/// A request as handed to the transport: final URL, collapsed header
/// set, the body to attach if any, and the deadline for the whole
/// exchange.
#[derive(Debug, Clone)]
pub struct OutboundRequest {
    pub method: HTTPMethod,
    pub url: String,
    pub headers: Vec<(String, String)>,
    pub body: Option<String>,
    pub timeout_ms: u64,
}

/// Turns an edited request into the outbound call's ingredients, or
/// rejects it before any network attempt: the URL is trimmed,
/// completed and parsed; the participating query parameters are
/// merged into it; headers collapse last-in-list-wins; and the body
/// is attached only where the policy allows — never for `GET`.
pub fn prepare_request(req: &HttpRequest) -> (r: Result<OutboundRequest, ValidationError>)
    ensures
        match r {
            Ok(out) => {
                &&& trim_spec(req@.url).len() > 0
                &&& url_parse_of(normalize_candidate(req@.url)) is Ok
                &&& out.method == req@.method
                &&& out.url@ == url_with_query_of(
                    normalize_candidate(req@.url),
                    enabled_pairs(req@.query_params),
                )
                &&& pairs_view(out.headers@) == collapse_pairs(enabled_pairs(req@.headers))
                &&& unique_keys(pairs_view(out.headers@))
                &&& (out.body is Some <==> should_send_body(req@))
                &&& (out.body matches Some(b) ==> b@ == req@.body)
                &&& (req@.method == HTTPMethod::GET ==> out.body is None)
                &&& out.timeout_ms == req@.timeout_ms
            },
            Err(e) => match e {
                ValidationError::EmptyUrl => trim_spec(req@.url).len() == 0,
                ValidationError::InvalidUrl(d) => {
                    &&& trim_spec(req@.url).len() > 0
                    &&& url_parse_of(normalize_candidate(req@.url)) matches Err(m)
                    &&& d@ == m
                },
            },
        },
{
    let validated = match normalize(req.url.as_str()) {
        Ok(u) => u,
        Err(e) => {
            return Err(e);
        }
    };
    let full_url = match merge_query(validated.as_str(), &req.query_params) {
        Ok(u) => u,
        Err(e) => {
            proof {
                // the validated URL was just shown to parse
                assert(false);
            }
            return Err(e);
        }
    };
    let headers = build_outgoing_pairs(&req.headers);
    proof {
        crate::kv::lemma_collapse_unique(enabled_pairs(req@.headers));
    }
    let body: Option<String> = if req.method.allows_body() && !req.body.as_str().is_empty()
        && req.body_type != BodyType::NoBody {
        Some(req.body.clone())
    } else {
        None
    };
    Ok(
        OutboundRequest {
            method: req.method,
            url: full_url,
            headers,
            body,
            timeout_ms: req.timeout_ms,
        },
    )
}

/// Packages what the transport handed back into a response: the
/// canonical reason phrase or `"Unknown"` where the transport has
/// none, and the headers collapsed so that of duplicate names the
/// last value observed stays, leaving every name unique.
pub fn build_response(
    status: u16,
    reason: Option<String>,
    raw_headers: &Vec<(String, String)>,
    body: String,
    duration_ms: u128,
) -> (r: HttpResponse)
    ensures
        r@.status == status,
        (match reason {
            Some(t) => r@.status_text == t@,
            None => r@.status_text == "Unknown"@,
        }),
        r@.headers == collapse_pairs(pairs_view(raw_headers@)),
        unique_keys(r@.headers),
        r@.body == body@,
        r@.duration_ms == duration_ms,
{
    let status_text = match reason {
        Some(t) => t,
        None => String::from_str("Unknown"),
    };
    let headers = collapse_received_pairs(raw_headers);
    proof {
        crate::kv::lemma_collapse_unique(pairs_view(raw_headers@));
    }
    HttpResponse { status, status_text, body, headers, duration_ms }
}

} // verus!
