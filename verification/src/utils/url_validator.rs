//! URL validation helpers over the builder's normalization rules.
use vstd::prelude::*;
use crate::text::trim_spec;
use crate::url_build::{normalize, normalize_candidate, url_parse_of, ValidationError};

verus! {

/// What `url::Url::host_str` reports for a string that parses: its
/// host, if it has one. A function of the string alone.
pub uninterp spec fn url_host_of(s: Seq<char>) -> Option<Seq<char>>;

/// Trims the input, prepends `https://` when no scheme is present,
/// and returns the completed string exactly when it parses as a URL;
/// otherwise the message to show the user.
pub fn validate_and_normalize(input: &str) -> (r: Result<String, String>)
    ensures
        match r {
            Ok(u) => trim_spec(input@).len() > 0 && url_parse_of(normalize_candidate(input@)) is Ok
                && u@ == normalize_candidate(input@),
            Err(m) => {
                &&& (trim_spec(input@).len() == 0 ==> m@ == "URL cannot be empty"@)
                &&& (trim_spec(input@).len() > 0 ==> (url_parse_of(normalize_candidate(input@))
                    matches Err(e) && m@ == "Invalid URL: "@ + e))
            },
        },
{
    match normalize(input) {
        Ok(u) => Ok(u),
        Err(e) => Err(e.message()),
    }
}

/// Whether the input would be accepted.
pub fn is_valid(url: &str) -> (r: bool)
    ensures
        r == (trim_spec(url@).len() > 0 && url_parse_of(normalize_candidate(url@)) is Ok),
{
    match validate_and_normalize(url) {
        Ok(_) => true,
        Err(_) => false,
    }
}

/// Relies on url::Url::parse and Url::host_str: the host of a URL
/// string, if it parses and has one.
#[verifier::external_body]
pub fn extract_domain(url: &str) -> (r: Option<String>)
    ensures
        match r {
            Some(h) => url_host_of(url@) matches Some(hh) && h@ == hh,
            None => url_host_of(url@) is None,
        },
{
    url::Url::parse(url).ok().and_then(|u| u.host_str().map(String::from))
}

} // verus!
