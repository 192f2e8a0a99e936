use http_tap::config::{Config, Scheme};
use http_tap::forward::{build_forward_request, forward_headers, host_header_value};
use http_tap::headers::{Header, is_hop_by_hop, is_valid_header_value};
use http_tap::response::build_forward_response;
use http_tap::uri::{build_target_uri, remap_uri};

fn h(name: &str, value: &str) -> Header {
    Header { name: name.as_bytes().to_vec(), value: value.as_bytes().to_vec() }
}

fn test_config() -> Config {
    Config {
        listen: b"127.0.0.1:8888".to_vec(),
        target_authority: b"example.com:8080".to_vec(),
        target_scheme: Scheme::Http,
        include_bodies: false,
        max_body_bytes: 2048,
        redact_header: vec![b"authorization".to_vec(), b"cookie".to_vec(), b"set-cookie".to_vec()],
        inbound_tls: false,
        insecure_upstream: false,
        has_stats: false,
        upstream_ca: vec![],
        upstream_client_cert: None,
        upstream_client_key: None,
        upstream_server_name: None,
        upstream_host: None,
    }
}

#[test]
fn uri_preserves_path_and_query() {
    let cfg = test_config();
    let pq = Some(b"/api/v1/items?q=2&x=%20y".to_vec());
    let uri = remap_uri(&cfg, &pq);
    assert_eq!(uri, b"http://example.com:8080/api/v1/items?q=2&x=%20y".to_vec());
}

#[test]
fn uri_without_path_and_query_becomes_root() {
    let cfg = test_config();
    let uri = build_target_uri(&cfg, &None);
    assert_eq!(uri, b"http://example.com:8080/".to_vec());
}

#[test]
fn uri_https_scheme_is_used() {
    let mut cfg = test_config();
    cfg.target_scheme = Scheme::Https;
    let uri = remap_uri(&cfg, &Some(b"/x".to_vec()));
    assert_eq!(uri, b"https://example.com:8080/x".to_vec());
}

#[test]
fn unparseable_rebuilt_uri_falls_back_to_root() {
    // A space in the authority makes the rebuilt URI invalid; the
    // remap falls back to "/" instead of failing.
    let mut cfg = test_config();
    cfg.target_authority = b"bad authority".to_vec();
    let uri = remap_uri(&cfg, &Some(b"/x".to_vec()));
    assert_eq!(uri, b"/".to_vec());
}

#[test]
fn hop_by_hop_headers_never_forwarded() {
    let cfg = test_config();
    let headers = vec![
        h("Connection", "keep-alive"),
        h("Proxy-Connection", "keep-alive"),
        h("Keep-Alive", "timeout=5"),
        h("Transfer-Encoding", "chunked"),
        h("Upgrade", "websocket"),
        h("TE", "trailers"),
        h("Trailer", "Expires"),
        h("accept", "*/*"),
        h("x-custom", "1"),
    ];
    let out = forward_headers(&headers, &cfg);
    for hd in &out {
        assert!(!is_hop_by_hop(&hd.name), "hop header forwarded: {:?}", hd.name);
    }
    // The ordinary headers survive, and exactly one host is appended.
    let names: Vec<&[u8]> = out.iter().map(|h| h.name.as_slice()).collect();
    assert_eq!(names, vec![b"accept".as_slice(), b"x-custom".as_slice(), b"host".as_slice()]);
}

#[test]
fn host_is_target_authority_by_default() {
    let cfg = test_config();
    let headers = vec![h("Host", "client-facing.example"), h("accept", "*/*")];
    let out = forward_headers(&headers, &cfg);
    let host: Vec<_> = out.iter().filter(|h| h.name == b"host".to_vec()).collect();
    assert_eq!(host.len(), 1);
    assert_eq!(host[0].value, b"example.com:8080".to_vec());
}

#[test]
fn host_override_wins_over_authority() {
    let mut cfg = test_config();
    cfg.upstream_host = Some(b"virtual.example".to_vec());
    let headers = vec![h("host", "client-facing.example")];
    let out = forward_headers(&headers, &cfg);
    let host: Vec<_> = out.iter().filter(|h| h.name == b"host".to_vec()).collect();
    assert_eq!(host.len(), 1);
    assert_eq!(host[0].value, b"virtual.example".to_vec());
}

#[test]
fn invalid_host_value_falls_back_to_localhost() {
    // A newline is not a legal header value byte, so the configured
    // override cannot be sent as-is; the fallback is "localhost".
    let mut cfg = test_config();
    cfg.upstream_host = Some(b"bad\nhost".to_vec());
    assert!(!is_valid_header_value(b"bad\nhost"));
    let value = host_header_value(&cfg);
    assert_eq!(value, b"localhost".to_vec());
}

#[test]
fn response_hop_headers_never_reach_the_client() {
    // Hop-by-hop headers never cross the boundary in either direction:
    // the return leg strips them too.
    let upstream = vec![
        h("Transfer-Encoding", "chunked"),
        h("Connection", "keep-alive"),
        h("Keep-Alive", "timeout=5"),
        h("content-type", "text/plain"),
        h("x-served-by", "upstream-1"),
    ];
    let resp = build_forward_response(200, &upstream, &b"hello".to_vec());
    assert_eq!(resp.status, 200);
    assert_eq!(resp.body, b"hello".to_vec());
    for hd in &resp.headers {
        assert!(!is_hop_by_hop(&hd.name), "hop header returned: {:?}", hd.name);
    }
    let names: Vec<&[u8]> = resp.headers.iter().map(|h| h.name.as_slice()).collect();
    assert_eq!(names, vec![b"content-type".as_slice(), b"x-served-by".as_slice()]);
}

#[test]
fn forwarded_request_keeps_method_and_body() {
    let cfg = test_config();
    let headers = vec![h("authorization", "secret"), h("connection", "close")];
    let body = b"abcdefghijklmnopqrst".to_vec();
    let req = build_forward_request(
        &b"POST".to_vec(),
        &Some(b"/submit?x=1".to_vec()),
        &headers,
        &body,
        &cfg,
    );
    assert_eq!(req.method, b"POST".to_vec());
    assert_eq!(req.uri, b"http://example.com:8080/submit?x=1".to_vec());
    assert_eq!(req.body, body);
    // The redacted-in-logs header crosses the boundary unmodified.
    let auth: Vec<_> = req.headers.iter().filter(|h| h.name == b"authorization".to_vec()).collect();
    assert_eq!(auth.len(), 1);
    assert_eq!(auth[0].value, b"secret".to_vec());
    // The hop-by-hop header does not.
    assert!(req.headers.iter().all(|h| h.name != b"connection".to_vec()));
}
