//! The WebSocket tunnel handshake: detecting an upgrade request,
//! rebuilding the bodiless forwarded handshake with the WebSocket
//! headers reinstated, and judging the upstream's answer.

use vstd::prelude::*;

use crate::ascii::{
    eq_ignore_ascii_case, eq_ignore_case_spec, is_ascii_space, is_ascii_space_exec,
    is_printable_value, printable_value,
};
use crate::config::Config;
use crate::forward::{forward_headers, forward_headers_spec};
use crate::headers::{
    first_match, get_header, insert_header, insert_header_spec, Header, HeaderView,
};
use crate::response::{build_client_response, failure_response, ProxyFailure, Response};
use crate::uri::remap_uri_spec;
use vstd::slice::slice_subrange;
use vstd::string::StringSliceAdditionalSpecFns;

verus! {

/// Leading ASCII whitespace removed.
pub open spec fn trim_front(s: Seq<u8>) -> Seq<u8>
    decreases s.len(),
{
    if s.len() > 0 && is_ascii_space(s[0]) {
        trim_front(s.drop_first())
    } else {
        s
    }
}

/// Trailing ASCII whitespace removed.
pub open spec fn trim_back(s: Seq<u8>) -> Seq<u8>
    decreases s.len(),
{
    if s.len() > 0 && is_ascii_space(s.last()) {
        trim_back(s.drop_last())
    } else {
        s
    }
}

/// Surrounding ASCII whitespace removed, as around a token of a
/// comma-separated header value.
pub open spec fn trim(s: Seq<u8>) -> Seq<u8> {
    trim_back(trim_front(s))
}

proof fn lemma_trim_front_at(s: Seq<u8>, a: int)
    requires
        0 <= a <= s.len(),
        forall|k: int| 0 <= k < a ==> is_ascii_space(#[trigger] s[k]),
        a == s.len() || !is_ascii_space(s[a]),
    ensures
        trim_front(s) == s.skip(a),
    decreases a,
{
    if a > 0 {
        lemma_trim_front_at(s.drop_first(), a - 1);
        assert(s.drop_first().skip(a - 1) =~= s.skip(a));
    } else {
        assert(s.skip(0) =~= s);
        if s.len() > 0 {
            assert(!is_ascii_space(s[0]));
        }
    }
}

proof fn lemma_trim_back_at(s: Seq<u8>, b: int)
    requires
        0 <= b <= s.len(),
        forall|k: int| b <= k < s.len() ==> is_ascii_space(#[trigger] s[k]),
        b == 0 || !is_ascii_space(s[b - 1]),
    ensures
        trim_back(s) == s.take(b),
    decreases s.len() - b,
{
    if b < s.len() {
        lemma_trim_back_at(s.drop_last(), b);
        assert(s.drop_last().take(b) =~= s.take(b));
    } else {
        assert(s.take(b) =~= s);
        if s.len() > 0 {
            assert(!is_ascii_space(s[s.len() - 1]));
        }
    }
}

/// Decides whether the token between `from` and `to`, once trimmed,
/// equals `tok` ignoring case.
#[verifier::loop_isolation(false)]
fn segment_matches(v: &[u8], from: usize, to: usize, tok: &[u8]) -> (r: bool)
    requires
        from <= to <= v@.len(),
    ensures
        r == eq_ignore_case_spec(trim(v@.subrange(from as int, to as int)), tok@),
{
    let ghost seg = v@.subrange(from as int, to as int);
    let mut a: usize = from;
    while a < to && is_ascii_space_exec(v[a])
        invariant
            from <= a <= to,
            forall|k: int| from <= k < a ==> is_ascii_space(#[trigger] v@[k]),
        decreases to - a,
    {
        a += 1;
    }
    proof {
        assert forall|k: int| 0 <= k < a - from implies is_ascii_space(#[trigger] seg[k]) by {
            assert(seg[k] == v@[from + k]);
        }
        if a < to {
            assert(seg[a - from] == v@[a as int]);
        }
        lemma_trim_front_at(seg, a - from);
    }
    let ghost fronted = seg.skip(a - from as int);
    let mut b: usize = to;
    while b > a && is_ascii_space_exec(v[b - 1])
        invariant
            a <= b <= to,
            forall|k: int| b <= k < to ==> is_ascii_space(#[trigger] v@[k]),
        decreases b,
    {
        b -= 1;
    }
    proof {
        assert(fronted =~= v@.subrange(a as int, to as int));
        assert forall|k: int| b - a <= k < fronted.len() implies is_ascii_space(
            #[trigger] fronted[k],
        ) by {
            assert(fronted[k] == v@[a + k]);
        }
        if b > a {
            assert(fronted[b - a - 1] == v@[b - 1]);
        }
        lemma_trim_back_at(fronted, b - a);
        assert(trim(seg) == fronted.take(b - a));
        assert(fronted.take(b - a) =~= v@.subrange(a as int, b as int));
    }
    let trimmed = slice_subrange(v, a, b);
    eq_ignore_ascii_case(trimmed, tok)
}

/// The bytes between `i` and `j` form one comma-separated token of `v`.
pub open spec fn token_at(v: Seq<u8>, i: int, j: int) -> bool {
    &&& 0 <= i <= j <= v.len()
    &&& (i == 0 || v[i - 1] == 44)
    &&& (j == v.len() || v[j] == 44)
    &&& forall|k: int| i <= k < j ==> v[k] != 44
}

/// Some comma-separated token of `v`, trimmed, equals `tok` ignoring
/// case. This is the RFC 7230 list-member test, not a substring test.
pub open spec fn has_token_spec(v: Seq<u8>, tok: Seq<u8>) -> bool {
    exists|i: int, j: int|
        token_at(v, i, j) && eq_ignore_case_spec(trim(v.subrange(i, j)), tok)
}

/// The start of a token is determined by its end.
proof fn lemma_token_start_unique(v: Seq<u8>, i: int, j: int, start: int)
    requires
        token_at(v, i, j),
        0 <= start <= j,
        start == 0 || v[start - 1] == 44,
        forall|k: int| start <= k < j ==> v[k] != 44,
    ensures
        i == start,
{
    if i < start {
        assert(v[start - 1] == 44);
    } else if i > start {
        assert(v[i - 1] != 44);
    }
}

/// Decides whether a comma-separated token of `v`, trimmed, equals
/// `tok` ignoring case.
#[verifier::loop_isolation(false)]
pub fn has_token(v: &[u8], tok: &[u8]) -> (r: bool)
    ensures
        r == has_token_spec(v@, tok@),
{
    let n = v.len();
    let mut start: usize = 0;
    let mut idx: usize = 0;
    while idx < n
        invariant
            0 <= start <= idx <= n,
            n == v@.len(),
            start == 0 || v@[start - 1] == 44,
            forall|k: int| start <= k < idx ==> v@[k] != 44,
            forall|i: int, j: int|
                token_at(v@, i, j) && j < idx ==> !eq_ignore_case_spec(
                    trim(v@.subrange(i, j)),
                    tok@,
                ),
        decreases n - idx,
    {
        if v[idx] == 44 {
            if segment_matches(v, start, idx, tok) {
                proof {
                    assert(token_at(v@, start as int, idx as int));
                }
                return true;
            }
            proof {
                assert forall|i: int, j: int|
                    token_at(v@, i, j) && j < idx + 1 implies !eq_ignore_case_spec(
                    trim(v@.subrange(i, j)),
                    tok@,
                ) by {
                    if j == idx {
                        lemma_token_start_unique(v@, i, j, start as int);
                    }
                }
            }
            start = idx + 1;
        }
        idx += 1;
    }
    let last = segment_matches(v, start, n, tok);
    proof {
        if last {
            assert(token_at(v@, start as int, n as int));
        } else {
            assert forall|i: int, j: int| token_at(v@, i, j) implies !eq_ignore_case_spec(
                trim(v@.subrange(i, j)),
                tok@,
            ) by {
                if j == n {
                    lemma_token_start_unique(v@, i, j, start as int);
                }
            }
        }
    }
    last
}

/// The trigger for the tunnel path: an Upgrade header equal to
/// `websocket` (ignoring case) and a Connection header whose
/// comma-separated tokens include `upgrade` (ignoring case, token
/// match, not substring match). A Connection value that cannot be read
/// as text does not trigger the tunnel.
pub open spec fn websocket_upgrade_requested(hs: Seq<HeaderView>) -> bool {
    &&& match first_match(hs, "upgrade".spec_bytes()) {
        Some(v) => eq_ignore_case_spec(v, "websocket".spec_bytes()),
        None => false,
    }
    &&& match first_match(hs, "connection".spec_bytes()) {
        Some(v) => printable_value(v) && has_token_spec(v, "upgrade".spec_bytes()),
        None => false,
    }
}

/// Detects a WebSocket upgrade request from its headers.
pub fn is_websocket_upgrade(headers: &Vec<Header>) -> (r: bool)
    ensures
        r == websocket_upgrade_requested(headers.deep_view()),
{
    let upgrade_ok = match get_header(headers, "upgrade".as_bytes()) {
        Some(v) => eq_ignore_ascii_case(v.as_slice(), "websocket".as_bytes()),
        None => false,
    };
    if !upgrade_ok {
        return false;
    }
    match get_header(headers, "connection".as_bytes()) {
        Some(v) => is_printable_value(v.as_slice()) && has_token(v.as_slice(), "upgrade".as_bytes()),
        None => false,
    }
}

/// The WebSocket handshake headers captured from the inbound request
/// before any rewriting and reinstated on the forwarded handshake.
pub open spec fn ws_reinserted_spec(
    forwarded: Seq<HeaderView>,
    original: Seq<HeaderView>,
) -> Seq<HeaderView> {
    let step0 = reinsert_one(forwarded, original, "connection".spec_bytes());
    let step1 = reinsert_one(step0, original, "upgrade".spec_bytes());
    let step2 = reinsert_one(step1, original, "sec-websocket-key".spec_bytes());
    let step3 = reinsert_one(step2, original, "sec-websocket-version".spec_bytes());
    let step4 = reinsert_one(step3, original, "sec-websocket-protocol".spec_bytes());
    reinsert_one(step4, original, "sec-websocket-extensions".spec_bytes())
}

/// Reinstates one captured header: when the original request carried
/// it, its first value is inserted; otherwise nothing changes.
pub open spec fn reinsert_one(
    hs: Seq<HeaderView>,
    original: Seq<HeaderView>,
    name: Seq<u8>,
) -> Seq<HeaderView> {
    match first_match(original, name) {
        Some(v) => insert_header_spec(hs, name, v),
        None => hs,
    }
}

/// Reinstates one captured header on the forwarded list.
fn reinsert_exec(out: &mut Vec<Header>, original: &Vec<Header>, name: &str)
    ensures
        final(out).deep_view() == reinsert_one(
            old(out).deep_view(),
            original.deep_view(),
            name.spec_bytes(),
        ),
{
    match get_header(original, name.as_bytes()) {
        Some(v) => {
            let value = crate::ascii::copy_bytes(v);
            insert_header(out, name.as_bytes(), &value);
        },
        None => {},
    }
}

/// The headers of the forwarded WebSocket handshake: the ordinary
/// forwarding rewrite, then the captured WebSocket headers reinstated
/// verbatim.
pub open spec fn ws_forward_headers_spec(hs: Seq<HeaderView>, cfg: crate::config::ConfigView) -> Seq<
    HeaderView,
> {
    ws_reinserted_spec(forward_headers_spec(hs, cfg), hs)
}

/// Builds the bodiless forwarded WebSocket handshake request: the same
/// URI-rewrite and header rules as the plain path, with the captured
/// WebSocket headers reinstated.
pub fn build_ws_forward_request(
    method: &Vec<u8>,
    pq: &Option<Vec<u8>>,
    headers: &Vec<Header>,
    cfg: &Config,
) -> (r: crate::forward::ForwardRequest)
    ensures
        r.method@ == method@,
        r.uri@ == remap_uri_spec(cfg.target_scheme, cfg.target_authority@, pq.deep_view()),
        r.headers.deep_view() == ws_forward_headers_spec(headers.deep_view(), cfg@),
        r.body@.len() == 0,
{
    let mut out = forward_headers(headers, cfg);
    reinsert_exec(&mut out, headers, "connection");
    reinsert_exec(&mut out, headers, "upgrade");
    reinsert_exec(&mut out, headers, "sec-websocket-key");
    reinsert_exec(&mut out, headers, "sec-websocket-version");
    reinsert_exec(&mut out, headers, "sec-websocket-protocol");
    reinsert_exec(&mut out, headers, "sec-websocket-extensions");
    crate::forward::ForwardRequest {
        method: crate::ascii::copy_bytes(method),
        uri: crate::uri::remap_uri(cfg, pq),
        headers: out,
        body: Vec::new(),
    }
}

/// What to do with the upstream's answer to a WebSocket handshake:
/// tunnel only on 101, otherwise answer 502 and never start a relay.
pub enum WsUpstreamDecision {
    /// The upstream switched protocols: deliver the 101 and tunnel.
    Proceed,
    /// Any other status: the synthesized 502 to return instead.
    Reject(Response),
}

/// Judges the upstream's handshake answer.
pub fn ws_upstream_decision(status: u16) -> (r: WsUpstreamDecision)
    ensures
        (r is Proceed) <==> status == 101,
        r matches WsUpstreamDecision::Reject(resp) ==> resp.status == 502
            && resp.body@ == crate::response::failure_body(ProxyFailure::WsUpstreamNot101)
            && resp.headers.deep_view() =~= seq![crate::response::plain_text_header()],
{
    if status == 101 {
        WsUpstreamDecision::Proceed
    } else {
        WsUpstreamDecision::Reject(failure_response(ProxyFailure::WsUpstreamNot101))
    }
}

/// Builds the 101 response delivered to the client: the upstream's
/// response headers mirrored exactly, with an empty body.
pub fn build_ws_client_response(upstream_headers: &Vec<Header>) -> (r: Response)
    ensures
        r.status == 101,
        r.headers.deep_view() == upstream_headers.deep_view(),
        r.body@.len() == 0,
{
    let empty: Vec<u8> = Vec::new();
    build_client_response(101, upstream_headers, &empty)
}

} // verus!
