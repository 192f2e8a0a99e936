//! Proxy configuration: the immutable settings every connection task
//! shares, target normalization, and the start-up decisions that pick
//! the TLS material and verification policy.

use vstd::prelude::*;

use crate::ascii::{copy_bytes, dec_digits, parse_u16, parse_u16_spec, render_u64};
use vstd::string::StringSliceAdditionalSpecFns;

verus! {

/// The URI scheme spoken towards the upstream.
#[derive(Clone, Copy, PartialEq, Eq, Structural, Debug)]
pub enum Scheme {
    Http,
    Https,
}

pub open spec fn scheme_bytes_spec(s: Scheme) -> Seq<u8> {
    match s {
        Scheme::Http => "http".spec_bytes(),
        Scheme::Https => "https".spec_bytes(),
    }
}

/// The textual form of a scheme, as written in a URI.
pub fn scheme_bytes(s: &Scheme) -> (r: &[u8])
    ensures
        r@ == scheme_bytes_spec(*s),
{
    match s {
        Scheme::Http => "http".as_bytes(),
        Scheme::Https => "https".as_bytes(),
    }
}

/// The immutable proxy configuration, shared read-only by every
/// connection. Handles that only the runtime layer can hold (the TLS
/// acceptor, the statistics channel sender) are carried there; here
/// they appear as presence flags.
pub struct Config {
    pub listen: Vec<u8>,
    pub target_authority: Vec<u8>,
    pub target_scheme: Scheme,
    pub include_bodies: bool,
    pub max_body_bytes: usize,
    pub redact_header: Vec<Vec<u8>>,
    pub inbound_tls: bool,
    pub insecure_upstream: bool,
    pub has_stats: bool,
    pub upstream_ca: Vec<Vec<u8>>,
    pub upstream_client_cert: Option<Vec<u8>>,
    pub upstream_client_key: Option<Vec<u8>>,
    pub upstream_server_name: Option<Vec<u8>>,
    pub upstream_host: Option<Vec<u8>>,
}

/// Mathematical view of a configuration.
pub ghost struct ConfigView {
    pub listen: Seq<u8>,
    pub target_authority: Seq<u8>,
    pub target_scheme: Scheme,
    pub include_bodies: bool,
    pub max_body_bytes: int,
    pub redact_header: Seq<Seq<u8>>,
    pub inbound_tls: bool,
    pub insecure_upstream: bool,
    pub has_stats: bool,
    pub upstream_ca: Seq<Seq<u8>>,
    pub upstream_client_cert: Option<Seq<u8>>,
    pub upstream_client_key: Option<Seq<u8>>,
    pub upstream_server_name: Option<Seq<u8>>,
    pub upstream_host: Option<Seq<u8>>,
}

impl View for Config {
    type V = ConfigView;

    open spec fn view(&self) -> ConfigView {
        ConfigView {
            listen: self.listen@,
            target_authority: self.target_authority@,
            target_scheme: self.target_scheme,
            include_bodies: self.include_bodies,
            max_body_bytes: self.max_body_bytes as int,
            redact_header: self.redact_header.deep_view(),
            inbound_tls: self.inbound_tls,
            insecure_upstream: self.insecure_upstream,
            has_stats: self.has_stats,
            upstream_ca: self.upstream_ca.deep_view(),
            upstream_client_cert: self.upstream_client_cert.deep_view(),
            upstream_client_key: self.upstream_client_key.deep_view(),
            upstream_server_name: self.upstream_server_name.deep_view(),
            upstream_host: self.upstream_host.deep_view(),
        }
    }
}

/// The command-line options, as the external argument parser fills
/// them in before the runtime layer turns them into a `Config`.
pub struct Cli {
    pub listen: String,
    pub target: String,
    pub include_bodies: bool,
    pub max_body_bytes: usize,
    pub redact_header: Vec<String>,
    pub listen_tls_cert: Option<String>,
    pub listen_tls_key: Option<String>,
    pub insecure_upstream: bool,
    pub listen_self_signed: bool,
    pub tui: bool,
    pub upstream_ca: Vec<String>,
    pub upstream_client_cert: Option<String>,
    pub upstream_client_key: Option<String>,
    pub upstream_server_name: Option<String>,
    pub upstream_host: Option<String>,
}

/// `p` is a prefix of `t`.
pub open spec fn starts_with(t: Seq<u8>, p: Seq<u8>) -> bool {
    t.len() >= p.len() && t.take(p.len() as int) == p
}

/// Decides whether `t` starts with `p`.
#[verifier::loop_isolation(false)]
pub fn starts_with_exec(t: &[u8], p: &[u8]) -> (r: bool)
    ensures
        r == starts_with(t@, p@),
{
    if t.len() < p.len() {
        return false;
    }
    let n = p.len();
    let mut i: usize = 0;
    while i < n
        invariant
            0 <= i <= n,
            forall|k: int| 0 <= k < i ==> t@[k] == p@[k],
        decreases n - i,
    {
        if t[i] != p[i] {
            assert(t@.take(n as int)[i as int] != p@[i as int]);
            return false;
        }
        i += 1;
    }
    assert(t@.take(n as int) =~= p@);
    true
}

/// The position of the last occurrence of `b`, if any.
pub open spec fn last_index_of(t: Seq<u8>, b: u8) -> Option<int>
    decreases t.len(),
{
    if t.len() == 0 {
        None
    } else if t.last() == b {
        Some(t.len() - 1)
    } else {
        last_index_of(t.drop_last(), b)
    }
}

/// Finds the last occurrence of `b`.
#[verifier::loop_isolation(false)]
pub fn find_last(t: &[u8], b: u8) -> (r: Option<usize>)
    ensures
        match r {
            Some(i) => i < t@.len() && last_index_of(t@, b) == Some(i as int),
            None => last_index_of(t@, b) is None,
        },
{
    let mut i: usize = t.len();
    assert(t@.take(i as int) =~= t@);
    while i > 0
        invariant
            0 <= i <= t@.len(),
            last_index_of(t@, b) == last_index_of(t@.take(i as int), b),
        decreases i,
    {
        proof {
            assert(t@.take(i as int).last() == t@[i - 1]);
            assert(t@.take(i as int).drop_last() =~= t@.take(i - 1));
        }
        if t[i - 1] == b {
            return Some(i - 1);
        }
        i -= 1;
    }
    None
}

/// How a target given on the command line is normalized: an explicit
/// `http://` or `https://` prefix is stripped and picks the scheme;
/// otherwise a trailing `:port` with a well-formed port number picks
/// `https` exactly for port 443 and reprints the port in canonical
/// decimal; anything else is taken verbatim as an `http` authority.
pub open spec fn normalize_target_spec(t: Seq<u8>) -> (Seq<u8>, Scheme) {
    if starts_with(t, "http://".spec_bytes()) {
        (t.skip("http://".spec_bytes().len() as int), Scheme::Http)
    } else if starts_with(t, "https://".spec_bytes()) {
        (t.skip("https://".spec_bytes().len() as int), Scheme::Https)
    } else {
        match last_index_of(t, 58) {
            Some(k) => match parse_u16_spec(t.skip(k + 1)) {
                Some(p) => (
                    t.take(k) + seq![58u8] + dec_digits(p as nat),
                    if p == 443 {
                        Scheme::Https
                    } else {
                        Scheme::Http
                    },
                ),
                None => (t, Scheme::Http),
            },
            None => (t, Scheme::Http),
        }
    }
}

/// Normalizes the target argument into an authority and a scheme.
pub fn normalize_target(target: &Vec<u8>) -> (r: (Vec<u8>, Scheme))
    ensures
        (r.0@, r.1) == normalize_target_spec(target@),
{
    let http_prefix = "http://".as_bytes();
    let https_prefix = "https://".as_bytes();
    if starts_with_exec(target.as_slice(), http_prefix) {
        let rest = slice_suffix(target.as_slice(), http_prefix.len());
        return (rest, Scheme::Http);
    }
    if starts_with_exec(target.as_slice(), https_prefix) {
        let rest = slice_suffix(target.as_slice(), https_prefix.len());
        return (rest, Scheme::Https);
    }
    match find_last(target.as_slice(), 58) {
        Some(k) => {
            let n = target.len();
            assert(k < target@.len() && n == target@.len());
            let port_part = slice_suffix(target.as_slice(), k + 1);
            match parse_u16(port_part.as_slice()) {
                Some(p) => {
                    let mut out = slice_prefix(target.as_slice(), k);
                    out.push(58);
                    let mut digits = render_u64(p as u64);
                    out.append(&mut digits);
                    let scheme = if p == 443 {
                        Scheme::Https
                    } else {
                        Scheme::Http
                    };
                    assert(out@ =~= target@.take(k as int) + seq![58u8] + dec_digits(p as nat));
                    (out, scheme)
                },
                None => (copy_bytes(target), Scheme::Http),
            }
        },
        None => (copy_bytes(target), Scheme::Http),
    }
}

/// Copies the bytes of `t` from `from` to the end.
#[verifier::loop_isolation(false)]
pub fn slice_suffix(t: &[u8], from: usize) -> (r: Vec<u8>)
    requires
        from <= t@.len(),
    ensures
        r@ == t@.skip(from as int),
{
    let n = t.len();
    let mut r: Vec<u8> = Vec::new();
    let mut i: usize = from;
    while i < n
        invariant
            from <= i <= n,
            r@ == t@.subrange(from as int, i as int),
        decreases n - i,
    {
        r.push(t[i]);
        assert(t@.subrange(from as int, i + 1) =~= t@.subrange(from as int, i as int).push(
            t@[i as int],
        ));
        i += 1;
    }
    assert(t@.subrange(from as int, n as int) =~= t@.skip(from as int));
    r
}

/// Copies the first `to` bytes of `t`.
#[verifier::loop_isolation(false)]
pub fn slice_prefix(t: &[u8], to: usize) -> (r: Vec<u8>)
    requires
        to <= t@.len(),
    ensures
        r@ == t@.take(to as int),
{
    let mut r: Vec<u8> = Vec::new();
    let mut i: usize = 0;
    while i < to
        invariant
            0 <= i <= to,
            r@ == t@.take(i as int),
        decreases to - i,
    {
        r.push(t[i]);
        assert(t@.take(i + 1) =~= t@.take(i as int).push(t@[i as int]));
        i += 1;
    }
    r
}

/// How the upstream server certificate is checked: a policy fixed once
/// at client-build time, never re-decided per request.
#[derive(Clone, Copy, PartialEq, Eq, Structural, Debug)]
pub enum UpstreamVerification {
    /// Accept any certificate and any handshake signature (the
    /// deliberately insecure mode).
    DangerousAcceptAll,
    /// Verify against the platform trust anchors plus any extra
    /// configured bundles.
    PlatformTrust,
}

/// Picks the upstream verification policy from the configuration.
pub fn upstream_verification_mode(cfg: &Config) -> (r: UpstreamVerification)
    ensures
        (r == UpstreamVerification::DangerousAcceptAll) <==> cfg.insecure_upstream,
{
    if cfg.insecure_upstream {
        UpstreamVerification::DangerousAcceptAll
    } else {
        UpstreamVerification::PlatformTrust
    }
}

/// The encoding a usable private key was found under: PKCS#8 is tried
/// first, then raw RSA.
#[derive(Clone, Copy, PartialEq, Eq, Structural, Debug)]
pub enum KeyEncoding {
    Pkcs8,
    Rsa,
}

/// Picks the private key to use from the outcome of the two parse
/// passes over a key file.
pub fn select_key_encoding(pkcs8_count: usize, rsa_count: usize) -> (r: Option<KeyEncoding>)
    ensures
        pkcs8_count > 0 ==> r == Some(KeyEncoding::Pkcs8),
        pkcs8_count == 0 && rsa_count > 0 ==> r == Some(KeyEncoding::Rsa),
        pkcs8_count == 0 && rsa_count == 0 ==> r is None,
{
    if pkcs8_count > 0 {
        Some(KeyEncoding::Pkcs8)
    } else if rsa_count > 0 {
        Some(KeyEncoding::Rsa)
    } else {
        None
    }
}

/// Whether the upstream client authenticates with a certificate, and
/// why not when it does not. Parse failures degrade to no client
/// authentication with a warning; they never prevent start-up.
#[derive(Clone, Copy, PartialEq, Eq, Structural, Debug)]
pub enum ClientAuthPlan {
    /// No client certificate and key were both configured.
    NotConfigured,
    /// Both were configured and both parsed: authenticate.
    UseCertAndKey,
    /// Both were configured but the chain or the key is unusable:
    /// continue without client authentication.
    DegradeNoAuth,
}

/// Decides the client-authentication plan from what the configured
/// material parsed to.
pub fn plan_client_auth(
    cert_configured: bool,
    key_configured: bool,
    chain_len: usize,
    key_found: bool,
) -> (r: ClientAuthPlan)
    ensures
        !(cert_configured && key_configured) ==> r == ClientAuthPlan::NotConfigured,
        cert_configured && key_configured && chain_len > 0 && key_found ==> r
            == ClientAuthPlan::UseCertAndKey,
        cert_configured && key_configured && (chain_len == 0 || !key_found) ==> r
            == ClientAuthPlan::DegradeNoAuth,
{
    if !(cert_configured && key_configured) {
        ClientAuthPlan::NotConfigured
    } else if chain_len > 0 && key_found {
        ClientAuthPlan::UseCertAndKey
    } else {
        ClientAuthPlan::DegradeNoAuth
    }
}

/// Why the inbound TLS material cannot be used. When inbound TLS was
/// requested this is startup-fatal: the proxy refuses to start rather
/// than silently serve plaintext.
#[derive(Clone, Copy, PartialEq, Eq, Structural, Debug)]
pub enum TlsStartupError {
    NoCertificates,
    NoPrivateKey,
}

/// Checks the parsed inbound TLS material: at least one certificate
/// and a usable private key are required.
pub fn inbound_tls_material(cert_count: usize, key_found: bool) -> (r: Result<(), TlsStartupError>)
    ensures
        r is Ok <==> (cert_count > 0 && key_found),
        cert_count == 0 ==> r == Err::<(), TlsStartupError>(TlsStartupError::NoCertificates),
        cert_count > 0 && !key_found ==> r == Err::<(), TlsStartupError>(
            TlsStartupError::NoPrivateKey,
        ),
{
    if cert_count == 0 {
        Err(TlsStartupError::NoCertificates)
    } else if !key_found {
        Err(TlsStartupError::NoPrivateKey)
    } else {
        Ok(())
    }
}

} // verus!
