//! The request forwarder: strips hop-by-hop headers, rewrites the Host
//! header and the URI, and builds the request handed to the upstream
//! client.

use vstd::prelude::*;

use crate::ascii::{copy_bytes, eq_ignore_ascii_case, eq_ignore_case_spec};
use crate::config::{Config, ConfigView};
use crate::headers::{
    copy_header, is_hop_by_hop, is_hop_name, is_valid_header_value, keep_filter,
    lemma_keep_filter_push, valid_header_value, Header, HeaderView,
};
use crate::uri::{remap_uri, remap_uri_spec};
use vstd::string::StringSliceAdditionalSpecFns;

verus! {

/// Headers that survive forwarding: everything except the hop-by-hop
/// set and the inbound Host header.
pub open spec fn forward_keep() -> spec_fn(HeaderView) -> bool {
    |h: HeaderView|
        !is_hop_name(h.name) && !eq_ignore_case_spec(h.name, "host".spec_bytes())
}

/// The Host header value sent upstream: the configured override when
/// set, else the target authority; a value the header syntax rejects
/// cannot be put on the wire and falls back to `localhost`.
pub open spec fn host_header_value_spec(
    authority: Seq<u8>,
    override_host: Option<Seq<u8>>,
) -> Seq<u8> {
    let hv = match override_host {
        Some(h) => h,
        None => authority,
    };
    if valid_header_value(hv) {
        hv
    } else {
        "localhost".spec_bytes()
    }
}

/// Computes the Host header value for a configuration.
pub fn host_header_value(cfg: &Config) -> (r: Vec<u8>)
    ensures
        r@ == host_header_value_spec(cfg.target_authority@, cfg.upstream_host.deep_view()),
{
    let ghost spec_hv: Seq<u8> = match cfg.upstream_host.deep_view() {
        Some(h) => h,
        None => cfg.target_authority@,
    };
    let hv: &Vec<u8> = match &cfg.upstream_host {
        Some(h) => h,
        None => &cfg.target_authority,
    };
    assert(hv@ == spec_hv);
    if is_valid_header_value(hv.as_slice()) {
        copy_bytes(hv)
    } else {
        crate::ascii::bytes_of("localhost".as_bytes())
    }
}

/// The headers sent upstream: the kept inbound headers in order, then
/// exactly one Host header carrying the configured value.
pub open spec fn forward_headers_spec(hs: Seq<HeaderView>, cfg: ConfigView) -> Seq<HeaderView> {
    keep_filter(hs, forward_keep()).push(
        HeaderView {
            name: "host".spec_bytes(),
            value: host_header_value_spec(cfg.target_authority, cfg.upstream_host),
        },
    )
}

/// Rewrites an inbound header list for forwarding: hop-by-hop headers
/// and the client's Host are dropped; the configured Host is set.
#[verifier::loop_isolation(false)]
pub fn forward_headers(hs: &Vec<Header>, cfg: &Config) -> (out: Vec<Header>)
    ensures
        out.deep_view() == forward_headers_spec(hs.deep_view(), cfg@),
{
    let ghost pred = forward_keep();
    let n = hs.len();
    let mut out: Vec<Header> = Vec::new();
    let mut i: usize = 0;
    while i < n
        invariant
            0 <= i <= n,
            n == hs.len(),
            out.deep_view() == keep_filter(hs.deep_view().take(i as int), pred),
        decreases n - i,
    {
        proof {
            assert(hs.deep_view().take(i + 1) =~= hs.deep_view().take(i as int).push(
                hs.deep_view()[i as int],
            ));
            lemma_keep_filter_push(hs.deep_view().take(i as int), pred, hs.deep_view()[i as int]);
        }
        if !is_hop_by_hop(hs[i].name.as_slice()) && !eq_ignore_ascii_case(
            hs[i].name.as_slice(),
            "host".as_bytes(),
        ) {
            let h = copy_header(&hs[i]);
            out.push(h);
        }
        i += 1;
    }
    proof {
        assert(hs.deep_view().take(n as int) =~= hs.deep_view());
    }
    let host = Header {
        name: crate::ascii::bytes_of("host".as_bytes()),
        value: host_header_value(cfg),
    };
    out.push(host);
    assert(out.deep_view() =~= forward_headers_spec(hs.deep_view(), cfg@));
    out
}

/// A request as handed to the upstream client: method, absolute URI,
/// rewritten headers, and the fully buffered body.
pub struct ForwardRequest {
    pub method: Vec<u8>,
    pub uri: Vec<u8>,
    pub headers: Vec<Header>,
    pub body: Vec<u8>,
}

/// Builds the forwarded request for the plain (non-tunnel) path: the
/// URI is remapped, hop-by-hop headers are stripped, Host is set, and
/// the buffered body is passed through unchanged.
pub fn build_forward_request(
    method: &Vec<u8>,
    pq: &Option<Vec<u8>>,
    headers: &Vec<Header>,
    body: &Vec<u8>,
    cfg: &Config,
) -> (r: ForwardRequest)
    ensures
        r.method@ == method@,
        r.uri@ == remap_uri_spec(cfg.target_scheme, cfg.target_authority@, pq.deep_view()),
        r.headers.deep_view() == forward_headers_spec(headers.deep_view(), cfg@),
        r.body@ == body@,
{
    ForwardRequest {
        method: copy_bytes(method),
        uri: remap_uri(cfg, pq),
        headers: forward_headers(headers, cfg),
        body: copy_bytes(body),
    }
}

} // verus!
