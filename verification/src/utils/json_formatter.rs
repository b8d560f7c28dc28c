//! JSON text helpers, for rendering response bodies.
use vstd::prelude::*;
use vstd::string::StringExecFns;

verus! {

/// Whether serde_json accepts the text as JSON. A function of the
/// text alone.
pub uninterp spec fn json_is_valid(s: Seq<char>) -> bool;

/// The message of serde_json's parse error for a rejected text. A
/// function of the text alone.
pub uninterp spec fn json_err_of(s: Seq<char>) -> Seq<char>;

/// serde_json's pretty rendering of a JSON text. A function of the
/// text alone.
pub uninterp spec fn json_pretty_of(s: Seq<char>) -> Seq<char>;

/// serde_json's compact rendering of a JSON text. A function of the
/// text alone.
pub uninterp spec fn json_minified_of(s: Seq<char>) -> Seq<char>;

/// Relies on serde_json::from_str and serde_json::to_string_pretty:
/// parsing succeeds exactly on valid JSON, and the rendering and the
/// parse error's message depend on the text alone.
#[verifier::external_body]
fn json_pretty(json_str: &str) -> (r: Result<String, String>)
    ensures
        r is Ok <==> json_is_valid(json_str@),
        r matches Ok(t) ==> t@ == json_pretty_of(json_str@),
        r matches Err(m) ==> m@ == json_err_of(json_str@),
{
    serde_json::from_str::<serde_json::Value>(json_str)
        .map(|v| serde_json::to_string_pretty(&v).unwrap_or_else(|_| json_str.to_string()))
        .map_err(|e| e.to_string())
}

/// Relies on serde_json::from_str and serde_json::to_string: parsing
/// succeeds exactly on valid JSON, and the rendering and the parse
/// error's message depend on the text alone.
#[verifier::external_body]
fn json_compact(json_str: &str) -> (r: Result<String, String>)
    ensures
        r is Ok <==> json_is_valid(json_str@),
        r matches Ok(t) ==> t@ == json_minified_of(json_str@),
        r matches Err(m) ==> m@ == json_err_of(json_str@),
{
    serde_json::from_str::<serde_json::Value>(json_str)
        .map(|v| serde_json::to_string(&v).unwrap_or_else(|_| json_str.to_string()))
        .map_err(|e| e.to_string())
}

/// Pretty-prints a JSON text, or reports why it is not JSON.
pub fn format(json_str: &str) -> (r: Result<String, String>)
    ensures
        r is Ok <==> json_is_valid(json_str@),
        r matches Ok(t) ==> t@ == json_pretty_of(json_str@),
        r matches Err(m) ==> m@ == "Invalid JSON: "@ + json_err_of(json_str@),
{
    match json_pretty(json_str) {
        Ok(t) => Ok(t),
        Err(detail) => {
            let mut m = String::from_str("Invalid JSON: ");
            m.append(detail.as_str());
            Err(m)
        },
    }
}

/// Relies on serde_json::from_str: whether the text is valid JSON
/// depends on the text alone.
#[verifier::external_body]
pub fn is_valid_json(json_str: &str) -> (r: bool)
    ensures
        r == json_is_valid(json_str@),
{
    serde_json::from_str::<serde_json::Value>(json_str).is_ok()
}

/// Renders a JSON text compactly, or reports why it is not JSON.
pub fn minify(json_str: &str) -> (r: Result<String, String>)
    ensures
        r is Ok <==> json_is_valid(json_str@),
        r matches Ok(t) ==> t@ == json_minified_of(json_str@),
        r matches Err(m) ==> m@ == "Invalid JSON: "@ + json_err_of(json_str@),
{
    match json_compact(json_str) {
        Ok(t) => Ok(t),
        Err(detail) => {
            let mut m = String::from_str("Invalid JSON: ");
            m.append(detail.as_str());
            Err(m)
        },
    }
}

} // verus!
