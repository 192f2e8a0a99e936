//! Responses returned to the client: mirrored upstream responses and
//! the synthesized plain-text error responses.

use vstd::prelude::*;

use crate::ascii::{bytes_of, copy_bytes};
use crate::headers::{
    copy_header, is_hop_by_hop, is_hop_name, keep_filter, lemma_keep_filter_push, Header,
    HeaderView,
};
use vstd::string::StringSliceAdditionalSpecFns;

verus! {

/// A response as returned to the client: status code, headers and the
/// fully buffered body.
pub struct Response {
    pub status: u16,
    pub headers: Vec<Header>,
    pub body: Vec<u8>,
}

/// The single header of a synthesized response.
pub open spec fn plain_text_header() -> HeaderView {
    HeaderView {
        name: "content-type".spec_bytes(),
        value: "text/plain; charset=utf-8".spec_bytes(),
    }
}

/// Builds a plain-text response with the given status, as synthesized
/// for request and upstream failures.
pub fn simple_response(status: u16, msg: &str) -> (r: Response)
    ensures
        r.status == status,
        r.headers.deep_view() =~= seq![plain_text_header()],
        r.body@ == msg.spec_bytes(),
{
    let mut headers: Vec<Header> = Vec::new();
    headers.push(
        Header {
            name: bytes_of("content-type".as_bytes()),
            value: bytes_of("text/plain; charset=utf-8".as_bytes()),
        },
    );
    Response { status: status, headers: headers, body: bytes_of(msg.as_bytes()) }
}

/// Every failure the proxy answers for itself rather than crashing the
/// connection task.
#[derive(Clone, Copy, PartialEq, Eq, Structural, Debug)]
pub enum ProxyFailure {
    /// The inbound request body could not be read.
    RequestBodyError,
    /// The upstream request failed at connect or protocol level.
    UpstreamConnectError,
    /// The upstream response body could not be read.
    UpstreamBodyError,
    /// Sending the WebSocket handshake to the upstream failed.
    WsHandshakeSendError,
    /// The upstream answered an upgrade request with a status other
    /// than 101.
    WsUpstreamNot101,
}

/// The status code synthesized for a failure: 400 for a bad inbound
/// body, 502 for every upstream failure.
pub open spec fn failure_status(f: ProxyFailure) -> u16 {
    match f {
        ProxyFailure::RequestBodyError => 400,
        ProxyFailure::UpstreamConnectError => 502,
        ProxyFailure::UpstreamBodyError => 502,
        ProxyFailure::WsHandshakeSendError => 502,
        ProxyFailure::WsUpstreamNot101 => 502,
    }
}

/// The readable body synthesized for a failure.
pub open spec fn failure_body(f: ProxyFailure) -> Seq<u8> {
    match f {
        ProxyFailure::RequestBodyError => "body error".spec_bytes(),
        ProxyFailure::UpstreamConnectError => "upstream connection failed".spec_bytes(),
        ProxyFailure::UpstreamBodyError => "upstream body error".spec_bytes(),
        ProxyFailure::WsHandshakeSendError => "upstream WS handshake failed".spec_bytes(),
        ProxyFailure::WsUpstreamNot101 => "upstream did not switch protocols".spec_bytes(),
    }
}

/// Synthesizes the response for a failure. The connection task returns
/// this instead of failing, so one bad request never tears the
/// connection down.
pub fn failure_response(f: ProxyFailure) -> (r: Response)
    ensures
        r.status == failure_status(f),
        r.headers.deep_view() =~= seq![plain_text_header()],
        r.body@ == failure_body(f),
        r.body@.len() > 0,
{
    proof {
        reveal_strlit("body error");
        reveal_strlit("upstream connection failed");
        reveal_strlit("upstream body error");
        reveal_strlit("upstream WS handshake failed");
        reveal_strlit("upstream did not switch protocols");
        assert(vstd::string::is_ascii("body error"));
        assert(vstd::string::is_ascii("upstream connection failed"));
        assert(vstd::string::is_ascii("upstream body error"));
        assert(vstd::string::is_ascii("upstream WS handshake failed"));
        assert(vstd::string::is_ascii("upstream did not switch protocols"));
        crate::ascii::lemma_ascii_literal_bytes("body error");
        crate::ascii::lemma_ascii_literal_bytes("upstream connection failed");
        crate::ascii::lemma_ascii_literal_bytes("upstream body error");
        crate::ascii::lemma_ascii_literal_bytes("upstream WS handshake failed");
        crate::ascii::lemma_ascii_literal_bytes("upstream did not switch protocols");
    }
    match f {
        ProxyFailure::RequestBodyError => simple_response(400, "body error"),
        ProxyFailure::UpstreamConnectError => simple_response(502, "upstream connection failed"),
        ProxyFailure::UpstreamBodyError => simple_response(502, "upstream body error"),
        ProxyFailure::WsHandshakeSendError => simple_response(
            502,
            "upstream WS handshake failed",
        ),
        ProxyFailure::WsUpstreamNot101 => simple_response(
            502,
            "upstream did not switch protocols",
        ),
    }
}

/// Mirrors an upstream response exactly: status, headers and buffered
/// body are passed through unchanged. Only the upgrade handshake may
/// use this — its 101 answer mirrors the upstream headers verbatim.
pub fn build_client_response(status: u16, headers: &Vec<Header>, body: &Vec<u8>) -> (r: Response)
    ensures
        r.status == status,
        r.headers.deep_view() == headers.deep_view(),
        r.body@ == body@,
{
    let n = headers.len();
    let mut hs: Vec<Header> = Vec::new();
    let mut i: usize = 0;
    while i < n
        invariant
            0 <= i <= n,
            n == headers.len(),
            hs.deep_view() == headers.deep_view().take(i as int),
        decreases n - i,
    {
        hs.push(copy_header(&headers[i]));
        assert(headers.deep_view().take(i + 1) =~= headers.deep_view().take(i as int).push(
            headers.deep_view()[i as int],
        ));
        i += 1;
    }
    assert(headers.deep_view().take(n as int) =~= headers.deep_view());
    Response { status: status, headers: hs, body: copy_bytes(body) }
}

/// The response headers that survive the return leg: everything the
/// upstream sent except the hop-by-hop set, which must never cross the
/// proxy boundary in either direction.
pub open spec fn response_keep() -> spec_fn(HeaderView) -> bool {
    |h: HeaderView| !is_hop_name(h.name)
}

/// The headers returned to the client on the plain forwarding path.
pub open spec fn response_headers_spec(hs: Seq<HeaderView>) -> Seq<HeaderView> {
    keep_filter(hs, response_keep())
}

/// Builds the response returned to the client for a forwarded request:
/// status and buffered body are the upstream's; the upstream's
/// hop-by-hop headers are removed, the rest kept in order.
#[verifier::loop_isolation(false)]
pub fn build_forward_response(status: u16, headers: &Vec<Header>, body: &Vec<u8>) -> (r: Response)
    ensures
        r.status == status,
        r.headers.deep_view() == response_headers_spec(headers.deep_view()),
        r.body@ == body@,
{
    let ghost pred = response_keep();
    let n = headers.len();
    let mut hs: Vec<Header> = Vec::new();
    let mut i: usize = 0;
    while i < n
        invariant
            0 <= i <= n,
            n == headers.len(),
            hs.deep_view() == keep_filter(headers.deep_view().take(i as int), pred),
        decreases n - i,
    {
        proof {
            assert(headers.deep_view().take(i + 1) =~= headers.deep_view().take(i as int).push(
                headers.deep_view()[i as int],
            ));
            lemma_keep_filter_push(headers.deep_view().take(i as int), pred, headers.deep_view()[i as int]);
        }
        if !is_hop_by_hop(headers[i].name.as_slice()) {
            hs.push(copy_header(&headers[i]));
        }
        i += 1;
    }
    assert(headers.deep_view().take(n as int) =~= headers.deep_view());
    Response { status: status, headers: hs, body: copy_bytes(body) }
}

} // verus!
