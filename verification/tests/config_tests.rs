use http_tap::config::{
    inbound_tls_material, normalize_target, plan_client_auth, select_key_encoding,
    upstream_verification_mode, ClientAuthPlan, Config, KeyEncoding, Scheme, TlsStartupError,
    UpstreamVerification,
};

fn cfg_with_insecure(insecure: bool) -> Config {
    Config {
        listen: b"127.0.0.1:8888".to_vec(),
        target_authority: b"example.com:443".to_vec(),
        target_scheme: Scheme::Https,
        include_bodies: false,
        max_body_bytes: 2048,
        redact_header: vec![],
        inbound_tls: false,
        insecure_upstream: insecure,
        has_stats: false,
        upstream_ca: vec![],
        upstream_client_cert: None,
        upstream_client_key: None,
        upstream_server_name: None,
        upstream_host: None,
    }
}

#[test]
fn target_with_http_prefix() {
    let (authority, scheme) = normalize_target(&b"http://example.com:8080".to_vec());
    assert_eq!(authority, b"example.com:8080".to_vec());
    assert_eq!(scheme, Scheme::Http);
}

#[test]
fn target_with_https_prefix() {
    let (authority, scheme) = normalize_target(&b"https://example.com".to_vec());
    assert_eq!(authority, b"example.com".to_vec());
    assert_eq!(scheme, Scheme::Https);
}

#[test]
fn target_with_port_443_is_https() {
    let (authority, scheme) = normalize_target(&b"example.com:443".to_vec());
    assert_eq!(authority, b"example.com:443".to_vec());
    assert_eq!(scheme, Scheme::Https);
}

#[test]
fn target_with_other_port_is_http() {
    let (authority, scheme) = normalize_target(&b"example.com:8080".to_vec());
    assert_eq!(authority, b"example.com:8080".to_vec());
    assert_eq!(scheme, Scheme::Http);
}

#[test]
fn target_port_is_reprinted_canonically() {
    // str::parse::<u16> accepts a leading plus and leading zeros; the
    // reassembled authority carries the canonical decimal form.
    let (authority, scheme) = normalize_target(&b"example.com:+0080".to_vec());
    assert_eq!(authority, b"example.com:80".to_vec());
    assert_eq!(scheme, Scheme::Http);
}

#[test]
fn target_with_bad_port_kept_verbatim() {
    let (authority, scheme) = normalize_target(&b"example.com:99999".to_vec());
    assert_eq!(authority, b"example.com:99999".to_vec());
    assert_eq!(scheme, Scheme::Http);
    let (authority2, scheme2) = normalize_target(&b"example.com:http".to_vec());
    assert_eq!(authority2, b"example.com:http".to_vec());
    assert_eq!(scheme2, Scheme::Http);
}

#[test]
fn target_without_port_kept_verbatim() {
    let (authority, scheme) = normalize_target(&b"example.com".to_vec());
    assert_eq!(authority, b"example.com".to_vec());
    assert_eq!(scheme, Scheme::Http);
}

#[test]
fn insecure_mode_picks_accept_all_verifier() {
    assert_eq!(
        upstream_verification_mode(&cfg_with_insecure(true)),
        UpstreamVerification::DangerousAcceptAll
    );
    assert_eq!(
        upstream_verification_mode(&cfg_with_insecure(false)),
        UpstreamVerification::PlatformTrust
    );
}

#[test]
fn key_encoding_prefers_pkcs8_then_rsa() {
    assert_eq!(select_key_encoding(2, 1), Some(KeyEncoding::Pkcs8));
    assert_eq!(select_key_encoding(1, 0), Some(KeyEncoding::Pkcs8));
    assert_eq!(select_key_encoding(0, 3), Some(KeyEncoding::Rsa));
    assert_eq!(select_key_encoding(0, 0), None);
}

#[test]
fn client_auth_degrades_instead_of_failing() {
    assert_eq!(plan_client_auth(false, false, 0, false), ClientAuthPlan::NotConfigured);
    assert_eq!(plan_client_auth(true, false, 1, true), ClientAuthPlan::NotConfigured);
    assert_eq!(plan_client_auth(true, true, 2, true), ClientAuthPlan::UseCertAndKey);
    assert_eq!(plan_client_auth(true, true, 0, true), ClientAuthPlan::DegradeNoAuth);
    assert_eq!(plan_client_auth(true, true, 1, false), ClientAuthPlan::DegradeNoAuth);
}

#[test]
fn inbound_tls_material_is_startup_fatal_when_missing() {
    assert_eq!(inbound_tls_material(0, true), Err(TlsStartupError::NoCertificates));
    assert_eq!(inbound_tls_material(0, false), Err(TlsStartupError::NoCertificates));
    assert_eq!(inbound_tls_material(1, false), Err(TlsStartupError::NoPrivateKey));
    assert_eq!(inbound_tls_material(1, true), Ok(()));
}
