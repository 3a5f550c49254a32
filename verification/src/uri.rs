//! Target-URI construction for forwarded requests and health probes.
//!
//! The characters of the target are assembled and specified here; turning
//! them into a `hyper::Uri` is the one outside call, kept behind a trusted
//! wrapper.

use vstd::prelude::*;
use vstd::string::StringExecFns;

verus! {

#[verifier::external_type_specification]
#[verifier::external_body]
pub struct ExUri(hyper::Uri);

/// Whether a string is accepted by `hyper::Uri`'s parser. Parsing is a
/// function of the characters alone; nothing more is assumed of it here.
pub uninterp spec fn uri_parse_ok(s: Seq<char>) -> bool;

/// The URI that `hyper::Uri`'s parser yields for a string it accepts.
/// Like acceptance, the parsed value is a function of the characters
/// alone; nothing is assumed about it beyond which characters it came
/// from.
pub uninterp spec fn uri_of(s: Seq<char>) -> hyper::Uri;

/// Relies on `<hyper::Uri as core::str::FromStr>::from_str` (hyper
/// re-exports `http::Uri`): the result is determined by the characters of
/// the input alone. A parse error is carried back as its display text.
#[verifier::external_body]
fn parse_uri(s: &String) -> (r: Result<hyper::Uri, String>)
    ensures
        r is Ok <==> uri_parse_ok(s@),
        (r matches Ok(u) ==> u == uri_of(s@)),
{
    match s.parse::<hyper::Uri>() {
        Ok(u) => Ok(u),
        Err(e) => Err(e.to_string()),
    }
}

/// The characters of a forwarded request's target: the backend's base URL
/// with the inbound path-and-query appended verbatim, or `/` when the
/// inbound request carried none.
pub open spec fn target_chars(backend: Seq<char>, path_and_query: Option<Seq<char>>) -> Seq<char> {
    match path_and_query {
        Some(p) => backend + p,
        None => backend + "/"@,
    }
}

/// The view of an optional borrowed string.
pub open spec fn opt_chars(p: Option<&str>) -> Option<Seq<char>> {
    match p {
        Some(s) => Some(s@),
        None => None,
    }
}

/// Builds the upstream target for a forwarded request: the URI parsed
/// from exactly the backend URL with the path-and-query appended. Succeeds
/// exactly when those characters parse as a URI; on failure the error text
/// is returned for the caller's diagnostic response.
pub fn build_target_uri(backend_url: &str, path_and_query: Option<&str>) -> (r: Result<
    hyper::Uri,
    String,
>)
    ensures
        r is Ok <==> uri_parse_ok(target_chars(backend_url@, opt_chars(path_and_query))),
        (r matches Ok(u) ==> u == uri_of(target_chars(backend_url@, opt_chars(path_and_query)))),
{
    let mut t: String = backend_url.to_owned();
    match path_and_query {
        Some(p) => t.append(p),
        None => t.append("/"),
    }
    parse_uri(&t)
}

/// Builds the target for a health probe: the URI parsed from exactly the
/// backend's base URL with its health-check path appended. Succeeds
/// exactly when those characters parse as a URI.
pub fn build_probe_uri(url: &str, health_check_path: &str) -> (r: Result<hyper::Uri, String>)
    ensures
        r is Ok <==> uri_parse_ok(url@ + health_check_path@),
        (r matches Ok(u) ==> u == uri_of(url@ + health_check_path@)),
{
    let mut t: String = url.to_owned();
    t.append(health_check_path);
    parse_uri(&t)
}

} // verus!
