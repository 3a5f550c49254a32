//! The pure parts of the forwarding pipeline: stripping hop-by-hop
//! headers, classifying health-probe outcomes, and synthesizing the
//! proxy's own error responses.

use vstd::prelude::*;
use vstd::string::StrSliceExecFns;
use vstd::string::StringExecFns;

use crate::uri::build_target_uri;
use crate::uri::opt_chars;
use crate::uri::target_chars;
use crate::uri::uri_of;
use crate::uri::uri_parse_ok;

verus! {

/// The mathematical value of one header: its name and its value, as
/// character sequences.
pub ghost struct HeaderView {
    pub name: Seq<char>,
    pub value: Seq<char>,
}

/// One HTTP header. Names compare case-insensitively, as HTTP requires,
/// so no particular casing is assumed of them.
pub struct Header {
    pub name: String,
    pub value: String,
}

impl View for Header {
    type V = HeaderView;

    open spec fn view(&self) -> HeaderView {
        HeaderView { name: self.name@, value: self.value@ }
    }
}

/// The views of a sequence of headers.
pub open spec fn header_views(s: Seq<Header>) -> Seq<HeaderView> {
    s.map_values(|h: Header| h@)
}

/// A character's code point with ASCII uppercase letters lowered: header
/// names compare case-insensitively, as HTTP requires.
pub open spec fn lower_code(c: char) -> int {
    if 65 <= c as u32 && c as u32 <= 90 {
        c as u32 + 32
    } else {
        c as u32 as int
    }
}

/// A name's code points, ASCII-lowercased.
pub open spec fn lower_codes(s: Seq<char>) -> Seq<int> {
    s.map_values(|c: char| lower_code(c))
}

/// The seven hop-by-hop header names, compared case-insensitively, which
/// are meaningful only for a single transport connection and must not
/// cross the proxy.
pub open spec fn is_hop_by_hop(name: Seq<char>) -> bool {
    ||| lower_codes(name) == lower_codes("connection"@)
    ||| lower_codes(name) == lower_codes("proxy-authenticate"@)
    ||| lower_codes(name) == lower_codes("proxy-authorization"@)
    ||| lower_codes(name) == lower_codes("te"@)
    ||| lower_codes(name) == lower_codes("trailer"@)
    ||| lower_codes(name) == lower_codes("transfer-encoding"@)
    ||| lower_codes(name) == lower_codes("upgrade"@)
}

/// The headers that survive forwarding: everything except the hop-by-hop
/// ones, in order, with names and values untouched.
pub open spec fn strip_hop_by_hop(s: Seq<HeaderView>) -> Seq<HeaderView> {
    s.filter(|h: HeaderView| !is_hop_by_hop(h.name))
}

/// ASCII-case-insensitive string comparison, as HTTP asks of header names.
fn eq_ignore_ascii_case(a: &str, b: &str) -> (r: bool)
    ensures
        r == (lower_codes(a@) == lower_codes(b@)),
{
    let la = a.unicode_len();
    let lb = b.unicode_len();
    if la != lb {
        proof {
            assert(lower_codes(a@).len() != lower_codes(b@).len());
        }
        return false;
    }
    let mut i: usize = 0;
    while i < la
        invariant
            i <= la,
            a@.len() == la as nat,
            b@.len() == la as nat,
            forall|j: int| 0 <= j < i ==> lower_code(a@[j]) == lower_code(b@[j]),
        decreases la - i,
    {
        let ca = a.get_char(i);
        let cb = b.get_char(i);
        let mut xa = ca as u32;
        let mut xb = cb as u32;
        if 65 <= xa && xa <= 90 {
            xa = xa + 32;
        }
        if 65 <= xb && xb <= 90 {
            xb = xb + 32;
        }
        if xa != xb {
            proof {
                assert(lower_codes(a@)[i as int] != lower_codes(b@)[i as int]);
            }
            return false;
        }
        i += 1;
    }
    proof {
        assert(lower_codes(a@) =~= lower_codes(b@));
    }
    true
}

/// Whether a header name is one of the seven hop-by-hop names, whatever
/// its casing.
pub fn is_hop_by_hop_name(name: &String) -> (r: bool)
    ensures
        r == is_hop_by_hop(name@),
{
    let n = name.as_str();
    eq_ignore_ascii_case(n, "connection") || eq_ignore_ascii_case(n, "proxy-authenticate")
        || eq_ignore_ascii_case(n, "proxy-authorization") || eq_ignore_ascii_case(n, "te")
        || eq_ignore_ascii_case(n, "trailer") || eq_ignore_ascii_case(n, "transfer-encoding")
        || eq_ignore_ascii_case(n, "upgrade")
}

/// Copies the inbound headers for the upstream request, removing exactly
/// the hop-by-hop ones and preserving all others verbatim, in order.
pub fn remove_hop_by_hop_headers(headers: &Vec<Header>) -> (r: Vec<Header>)
    ensures
        header_views(r@) == strip_hop_by_hop(header_views(headers@)),
{
    let ghost all = header_views(headers@);
    let mut out: Vec<Header> = Vec::new();
    let mut i: usize = 0;
    while i < headers.len()
        invariant
            i <= headers@.len(),
            all == header_views(headers@),
            header_views(out@) == strip_hop_by_hop(all.take(i as int)),
        decreases headers@.len() - i,
    {
        let h = &headers[i];
        let ghost before = header_views(out@);
        proof {
            assert(all.take(i as int + 1) =~= all.take(i as int).push(headers@[i as int]@));
            lemma_strip_push(all.take(i as int), headers@[i as int]@);
        }
        if !is_hop_by_hop_name(&h.name) {
            out.push(Header { name: h.name.as_str().to_owned(), value: h.value.as_str().to_owned() });
            proof {
                assert(header_views(out@) =~= before.push(headers@[i as int]@));
            }
        }
        i += 1;
    }
    proof {
        assert(all.take(headers@.len() as int) =~= all);
    }
    out
}

/// Appending one header filters to the same result when the header is
/// hop-by-hop, and to the result extended by that header otherwise.
proof fn lemma_strip_push(s: Seq<HeaderView>, x: HeaderView)
    ensures
        is_hop_by_hop(x.name) ==> strip_hop_by_hop(s.push(x)) == strip_hop_by_hop(s),
        !is_hop_by_hop(x.name) ==> strip_hop_by_hop(s.push(x)) == strip_hop_by_hop(s).push(x),
{
    reveal(Seq::filter);
    assert(s.push(x).drop_last() =~= s);
    assert(s.push(x).last() == x);
}

/// Nothing hop-by-hop survives the strip, and every header that is not
/// hop-by-hop does survive it: the strip removes exactly the hop-by-hop
/// headers.
pub proof fn lemma_strip_exact(s: Seq<HeaderView>)
    ensures
        forall|i: int|
            0 <= i < strip_hop_by_hop(s).len() ==> !is_hop_by_hop(
                (#[trigger] strip_hop_by_hop(s)[i]).name,
            ),
        forall|i: int|
            0 <= i < s.len() && !is_hop_by_hop((#[trigger] s[i]).name) ==> strip_hop_by_hop(
                s,
            ).contains(s[i]),
{
    let pred = |h: HeaderView| !is_hop_by_hop(h.name);
    assert forall|i: int| 0 <= i < strip_hop_by_hop(s).len() implies !is_hop_by_hop(
        (#[trigger] strip_hop_by_hop(s)[i]).name,
    ) by {
        s.lemma_filter_pred(pred, i);
    }
    assert forall|i: int|
        0 <= i < s.len() && !is_hop_by_hop((#[trigger] s[i]).name) implies strip_hop_by_hop(
        s,
    ).contains(s[i]) by {
        s.lemma_filter_contains(pred, i);
    }
}

/// Everything forwarding decides before touching the network: the
/// upstream target and the headers to send. The inbound method and body
/// pass through unchanged and stay with the caller.
pub struct ForwardPlan {
    pub target: hyper::Uri,
    pub headers: Vec<Header>,
}

/// The compute core of forwarding one request to a chosen backend: the
/// upstream target is the URI parsed from exactly the backend URL with the
/// inbound path-and-query appended (or `/` when absent), and the forwarded
/// headers are the inbound ones minus exactly the hop-by-hop seven. Fails,
/// carrying the error text, exactly when the assembled target does not
/// parse as a URI.
pub fn prepare_forward(
    backend_url: &str,
    path_and_query: Option<&str>,
    headers: &Vec<Header>,
) -> (r: Result<ForwardPlan, String>)
    ensures
        r is Ok <==> uri_parse_ok(target_chars(backend_url@, opt_chars(path_and_query))),
        (r matches Ok(plan) ==> plan.target == uri_of(
            target_chars(backend_url@, opt_chars(path_and_query)),
        ) && header_views(plan.headers@) == strip_hop_by_hop(header_views(headers@))),
{
    let target = match build_target_uri(backend_url, path_and_query) {
        Ok(u) => u,
        Err(e) => {
            return Err(e);
        },
    };
    let kept = remove_hop_by_hop_headers(headers);
    Ok(ForwardPlan { target, headers: kept })
}

/// A probe outcome (`Some` status, or `None` for a transport error or
/// timeout) marks a backend healthy exactly when the status is 200.
pub fn probe_is_healthy(status: Option<u16>) -> (r: bool)
    ensures
        r == (status == Some(200u16)),
{
    match status {
        Some(code) => code == 200,
        None => false,
    }
}

/// The response the proxy synthesizes when no backend is healthy.
pub fn no_healthy_backends_response() -> (r: (u16, String))
    ensures
        r.0 == 503,
        r.1@ == "No healthy backends available"@,
{
    (503, "No healthy backends available".to_owned())
}

/// The response the proxy synthesizes when forwarding to the chosen
/// backend fails; the body embeds the underlying error text.
pub fn proxy_error_response(error_text: &str) -> (r: (u16, String))
    ensures
        r.0 == 502,
        r.1@ == "Proxy error: "@ + error_text@,
{
    let mut body: String = "Proxy error: ".to_owned();
    body.append(error_text);
    (502, body)
}

} // verus!
