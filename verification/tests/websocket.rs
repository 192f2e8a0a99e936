use http_tap::config::{Config, Scheme};
use http_tap::headers::Header;
use http_tap::response::{failure_response, ProxyFailure};
use http_tap::ws::{
    build_ws_client_response, build_ws_forward_request, has_token, is_websocket_upgrade,
    ws_upstream_decision, WsUpstreamDecision,
};

fn h(name: &str, value: &str) -> Header {
    Header { name: name.as_bytes().to_vec(), value: value.as_bytes().to_vec() }
}

fn test_config() -> Config {
    Config {
        listen: b"127.0.0.1:8888".to_vec(),
        target_authority: b"up.example:9000".to_vec(),
        target_scheme: Scheme::Http,
        include_bodies: false,
        max_body_bytes: 2048,
        redact_header: vec![],
        inbound_tls: false,
        insecure_upstream: false,
        has_stats: false,
        upstream_ca: vec![],
        upstream_client_cert: None,
        upstream_client_key: None,
        upstream_server_name: None,
        upstream_host: None,
    }
}

#[test]
fn upgrade_detected_case_insensitively() {
    let headers = vec![h("Upgrade", "WebSocket"), h("Connection", "keep-alive, Upgrade")];
    assert!(is_websocket_upgrade(&headers));
}

#[test]
fn upgrade_requires_connection_token() {
    let headers = vec![h("Upgrade", "websocket"), h("Connection", "keep-alive")];
    assert!(!is_websocket_upgrade(&headers));
}

#[test]
fn upgrade_requires_upgrade_header() {
    let headers = vec![h("Connection", "upgrade")];
    assert!(!is_websocket_upgrade(&headers));
}

#[test]
fn unreadable_connection_value_does_not_trigger_tunnel() {
    let headers = vec![
        h("Upgrade", "websocket"),
        Header { name: b"connection".to_vec(), value: vec![117, 112, 103, 114, 97, 100, 101, 0xFF] },
    ];
    assert!(!is_websocket_upgrade(&headers));
}

#[test]
fn connection_token_is_not_a_substring_match() {
    // "downgrade" contains "upgrade" as a substring, but it is not the
    // token "upgrade".
    assert!(!has_token(b"downgrade", b"upgrade"));
    assert!(has_token(b"keep-alive , upgrade", b"upgrade"));
    assert!(has_token(b"upgrade", b"upgrade"));
    assert!(has_token(b"UPGRADE,x", b"upgrade"));
    assert!(!has_token(b"", b"upgrade"));
}

#[test]
fn ws_handshake_reinstates_captured_headers() {
    let cfg = test_config();
    let headers = vec![
        h("Host", "client.example"),
        h("Connection", "Upgrade"),
        h("Upgrade", "websocket"),
        h("sec-websocket-key", "dGhlIHNhbXBsZSBub25jZQ=="),
        h("sec-websocket-version", "13"),
        h("x-extra", "kept"),
    ];
    let req = build_ws_forward_request(&b"GET".to_vec(), &Some(b"/chat".to_vec()), &headers, &cfg);
    assert_eq!(req.uri, b"http://up.example:9000/chat".to_vec());
    assert!(req.body.is_empty());
    let find = |name: &[u8]| -> Vec<Vec<u8>> {
        req.headers.iter().filter(|h| h.name == name.to_vec()).map(|h| h.value.clone()).collect()
    };
    assert_eq!(find(b"connection"), vec![b"Upgrade".to_vec()]);
    assert_eq!(find(b"upgrade"), vec![b"websocket".to_vec()]);
    assert_eq!(find(b"sec-websocket-key"), vec![b"dGhlIHNhbXBsZSBub25jZQ==".to_vec()]);
    assert_eq!(find(b"sec-websocket-version"), vec![b"13".to_vec()]);
    assert_eq!(find(b"x-extra"), vec![b"kept".to_vec()]);
    assert_eq!(find(b"host"), vec![b"up.example:9000".to_vec()]);
}

#[test]
fn upstream_101_proceeds_to_tunnel() {
    assert!(matches!(ws_upstream_decision(101), WsUpstreamDecision::Proceed));
}

#[test]
fn upstream_non_101_rejects_with_502() {
    for status in [200u16, 204, 302, 400, 500] {
        match ws_upstream_decision(status) {
            WsUpstreamDecision::Proceed => panic!("tunnel must not start on {status}"),
            WsUpstreamDecision::Reject(resp) => {
                assert_eq!(resp.status, 502);
                assert_eq!(resp.body, b"upstream did not switch protocols".to_vec());
            }
        }
    }
}

#[test]
fn ws_client_response_mirrors_upstream_headers() {
    let upstream = vec![
        h("upgrade", "websocket"),
        h("connection", "Upgrade"),
        h("sec-websocket-accept", "s3pPLMBiTxaQ9kYGzzhZRbK+xOo="),
    ];
    let resp = build_ws_client_response(&upstream);
    assert_eq!(resp.status, 101);
    assert!(resp.body.is_empty());
    assert_eq!(resp.headers.len(), upstream.len());
    for (a, b) in resp.headers.iter().zip(upstream.iter()) {
        assert_eq!(a.name, b.name);
        assert_eq!(a.value, b.value);
    }
}

#[test]
fn ws_handshake_send_failure_gives_502() {
    let resp = failure_response(ProxyFailure::WsHandshakeSendError);
    assert_eq!(resp.status, 502);
    assert_eq!(resp.body, b"upstream WS handshake failed".to_vec());
}
