//! URL normalization and query merging: trims and completes what the
//! user typed, and appends the participating query parameters through
//! the `url` crate.
use vstd::prelude::*;
use crate::kv::{collect_enabled_pairs, enabled_pairs};
use crate::model::{pairs_view, rows_view, KeyValue};
use crate::text::{
    chars_to_string, has_url_scheme, scheme_https, starts_with_url_scheme, string_to_chars,
    trim_chars, trim_spec,
};

verus! {

/// Why a URL was rejected before any network attempt.
#[derive(Debug, Clone, PartialEq, Eq)]
pub enum ValidationError {
    /// The input was empty after trimming.
    EmptyUrl,
    /// The completed string failed to parse; carries the parser's
    /// message for the user.
    InvalidUrl(String),
}

/// What `url::Url::parse` makes of a string: `Ok` with the parsed
/// URL's serialization, or `Err` with the parser's message. A function
/// of the string alone.
pub uninterp spec fn url_parse_of(s: Seq<char>) -> Result<Seq<char>, Seq<char>>;

/// The serialization of a parsed URL after the given pairs are
/// appended to its query, percent-encoded. A function of the base
/// string and the pairs alone.
pub uninterp spec fn url_with_query_of(
    base: Seq<char>,
    pairs: Seq<(Seq<char>, Seq<char>)>,
) -> Seq<char>;

/// Relies on url::Url::parse: whether a string parses, and the
/// message of its parse error, depend on the string alone.
#[verifier::external_body]
fn url_parse_check(s: &str) -> (r: Result<(), String>)
    ensures
        r is Ok <==> url_parse_of(s@) is Ok,
        r matches Err(m) ==> url_parse_of(s@) matches Err(e) && m@ == e,
{
    match url::Url::parse(s) {
        Ok(_) => Ok(()),
        Err(e) => Err(e.to_string()),
    }
}

/// Relies on url::Url::parse, Url::query_pairs_mut (whose serializer
/// appends the given pairs percent-encoded, in order) and
/// Url::as_str: the rebuilt URL depends on the base string and the
/// appended pairs alone.
#[verifier::external_body]
fn url_append_query(base: &str, pairs: &Vec<(String, String)>) -> (r: Result<String, String>)
    ensures
        r is Ok <==> url_parse_of(base@) is Ok,
        r matches Ok(u) ==> u@ == url_with_query_of(base@, pairs_view(pairs@)),
        r matches Err(m) ==> url_parse_of(base@) matches Err(e) && m@ == e,
{
    match url::Url::parse(base) {
        Ok(mut u) => {
            u.query_pairs_mut().extend_pairs(pairs.iter().map(|p| (&p.0, &p.1)));
            Ok(u.as_str().to_string())
        }
        Err(e) => Err(e.to_string()),
    }
}

/// The string that is actually parsed: the input trimmed, with
/// `https://` put in front when no scheme is there.
pub open spec fn normalize_candidate(s: Seq<char>) -> Seq<char> {
    let t = trim_spec(s);
    if has_url_scheme(t) {
        t
    } else {
        scheme_https() + t
    }
}

/// Trims the input, prepends `https://` when no scheme is present,
/// and accepts the result exactly when it parses as a URL. The `Ok`
/// string is the completed input itself, not the parser's rewriting
/// of it.
pub fn normalize(raw: &str) -> (r: Result<String, ValidationError>)
    ensures
        match r {
            Ok(u) => trim_spec(raw@).len() > 0 && url_parse_of(normalize_candidate(raw@)) is Ok
                && u@ == normalize_candidate(raw@),
            Err(e) => match e {
                ValidationError::EmptyUrl => trim_spec(raw@).len() == 0,
                ValidationError::InvalidUrl(d) => {
                    &&& trim_spec(raw@).len() > 0
                    &&& url_parse_of(normalize_candidate(raw@)) matches Err(m)
                    &&& d@ == m
                },
            },
        },
{
    let chars = string_to_chars(raw);
    let mut t = trim_chars(&chars);
    if t.len() == 0 {
        return Err(ValidationError::EmptyUrl);
    }
    let candidate: Vec<char> = if starts_with_url_scheme(&t) {
        t
    } else {
        let mut full: Vec<char> = Vec::new();
        full.push('h');
        full.push('t');
        full.push('t');
        full.push('p');
        full.push('s');
        full.push(':');
        full.push('/');
        full.push('/');
        proof {
            assert(full@ =~= scheme_https());
        }
        full.append(&mut t);
        full
    };
    assert(candidate@ == normalize_candidate(raw@));
    let s = chars_to_string(&candidate);
    match url_parse_check(s.as_str()) {
        Ok(_) => Ok(s),
        Err(m) => Err(ValidationError::InvalidUrl(m)),
    }
}

/// Appends the participating query parameters — enabled rows with a
/// non-empty key, in list order, values percent-encoded, an empty
/// value kept as-is — to the URL's query, preserving pairs already
/// present. Fails exactly when the base URL does not re-parse.
pub fn merge_query(base_url: &str, params: &Vec<KeyValue>) -> (r: Result<String, ValidationError>)
    ensures
        match r {
            Ok(u) => url_parse_of(base_url@) is Ok && u@ == url_with_query_of(
                base_url@,
                enabled_pairs(rows_view(params@)),
            ),
            Err(e) => match e {
                ValidationError::EmptyUrl => false,
                ValidationError::InvalidUrl(d) => {
                    &&& url_parse_of(base_url@) matches Err(m)
                    &&& d@ == m
                },
            },
        },
{
    let pairs = collect_enabled_pairs(params);
    match url_append_query(base_url, &pairs) {
        Ok(u) => Ok(u),
        Err(m) => Err(ValidationError::InvalidUrl(m)),
    }
}

} // verus!
