//! URI remapping: the forwarded request keeps the inbound path and
//! query verbatim and replaces only the scheme and the authority with
//! the configured target.

use vstd::prelude::*;

use crate::ascii::copy_bytes;
use crate::config::{scheme_bytes, scheme_bytes_spec, Config, Scheme};
use vstd::string::StringSliceAdditionalSpecFns;

verus! {

/// The path-and-query part used when the inbound request has none.
pub open spec fn pq_or_root(pq: Option<Seq<u8>>) -> Seq<u8> {
    match pq {
        Some(p) => p,
        None => "/".spec_bytes(),
    }
}

/// The absolute target URI: the configured scheme and authority,
/// then the inbound path and query unchanged.
pub open spec fn target_uri_spec(scheme: Scheme, authority: Seq<u8>, pq: Option<Seq<u8>>) -> Seq<
    u8,
> {
    scheme_bytes_spec(scheme) + "://".spec_bytes() + authority + pq_or_root(pq)
}

/// Whether hyper's `http` crate parses a byte string as a URI.
pub uninterp spec fn uri_ok(bytes: Seq<u8>) -> bool;

/// Relies on `http::Uri`'s parser (its `TryFrom<&[u8]>`): whether the
/// bytes form a well-formed URI is a function of the bytes alone.
#[verifier::external_body]
fn uri_bytes_ok(b: &Vec<u8>) -> (r: bool)
    ensures
        r == uri_ok(b@),
{
    hyper::http::Uri::try_from(b.as_slice()).is_ok()
}

/// Builds the absolute target URI from the configuration and the
/// inbound path and query.
pub fn build_target_uri(cfg: &Config, pq: &Option<Vec<u8>>) -> (r: Vec<u8>)
    ensures
        r@ == target_uri_spec(cfg.target_scheme, cfg.target_authority@, pq.deep_view()),
{
    let mut out: Vec<u8> = Vec::new();
    let scheme = scheme_bytes(&cfg.target_scheme);
    let mut i: usize = 0;
    let n = scheme.len();
    while i < n
        invariant
            0 <= i <= n,
            n == scheme@.len(),
            out@ == scheme@.take(i as int),
        decreases n - i,
    {
        out.push(scheme[i]);
        assert(scheme@.take(i + 1) =~= scheme@.take(i as int).push(scheme@[i as int]));
        i += 1;
    }
    assert(scheme@.take(n as int) =~= scheme@);
    let sep = "://".as_bytes();
    let mut j: usize = 0;
    let m = sep.len();
    while j < m
        invariant
            0 <= j <= m,
            m == sep@.len(),
            out@ == scheme@ + sep@.take(j as int),
        decreases m - j,
    {
        out.push(sep[j]);
        assert(sep@.take(j + 1) =~= sep@.take(j as int).push(sep@[j as int]));
        assert(out@ =~= scheme@ + sep@.take(j + 1));
        j += 1;
    }
    assert(sep@.take(m as int) =~= sep@);
    let mut auth = copy_bytes(&cfg.target_authority);
    out.append(&mut auth);
    match pq {
        Some(p) => {
            let mut tail = copy_bytes(p);
            out.append(&mut tail);
        },
        None => {
            let mut tail = crate::ascii::bytes_of("/".as_bytes());
            out.append(&mut tail);
        },
    }
    assert(out@ =~= target_uri_spec(cfg.target_scheme, cfg.target_authority@, pq.deep_view()));
    out
}

/// The forwarded URI: the rebuilt target URI, or `/` when the rebuilt
/// bytes do not parse as a URI.
pub open spec fn remap_uri_spec(scheme: Scheme, authority: Seq<u8>, pq: Option<Seq<u8>>) -> Seq<
    u8,
> {
    let full = target_uri_spec(scheme, authority, pq);
    if uri_ok(full) {
        full
    } else {
        "/".spec_bytes()
    }
}

/// Rewrites the request target: path and query are preserved exactly;
/// only scheme and authority change.
pub fn remap_uri(cfg: &Config, pq: &Option<Vec<u8>>) -> (r: Vec<u8>)
    ensures
        r@ == remap_uri_spec(cfg.target_scheme, cfg.target_authority@, pq.deep_view()),
{
    let full = build_target_uri(cfg, pq);
    if uri_bytes_ok(&full) {
        full
    } else {
        crate::ascii::bytes_of("/".as_bytes())
    }
}

} // verus!
