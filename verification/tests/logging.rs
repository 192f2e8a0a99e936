use http_tap::headers::Header;
use http_tap::logfmt::{
    body_preview, display_value, render_body_block, render_header_lines, render_request_log,
    render_response_log, sorted_header_names,
};

fn h(name: &str, value: &str) -> Header {
    Header { name: name.as_bytes().to_vec(), value: value.as_bytes().to_vec() }
}

#[test]
fn redacted_header_logs_marker_case_insensitively() {
    let redact = vec![b"authorization".to_vec()];
    let shown = display_value(b"Authorization", &b"secret".to_vec(), &redact);
    assert_eq!(shown, b"<redacted>".to_vec());
    let shown2 = display_value(b"AUTHORIZATION", &b"secret".to_vec(), &redact);
    assert_eq!(shown2, b"<redacted>".to_vec());
}

#[test]
fn unredacted_header_logs_its_value() {
    let redact = vec![b"authorization".to_vec()];
    let shown = display_value(b"accept", &b"*/*".to_vec(), &redact);
    assert_eq!(shown, b"*/*".to_vec());
}

#[test]
fn unprintable_value_logs_byte_count() {
    let redact: Vec<Vec<u8>> = vec![];
    let shown = display_value(b"x-bin", &vec![0u8, 1, 2, 255], &redact);
    assert_eq!(shown, b"<4 bytes>".to_vec());
}

#[test]
fn header_names_print_in_sorted_order() {
    let headers = vec![h("zeta", "1"), h("accept", "2"), h("mid", "3")];
    let names = sorted_header_names(&headers);
    assert_eq!(names, vec![b"accept".to_vec(), b"mid".to_vec(), b"zeta".to_vec()]);
}

#[test]
fn header_lines_are_sorted_and_redacted() {
    let headers = vec![h("zeta", "1"), h("Authorization", "secret"), h("accept", "*/*")];
    let redact = vec![b"authorization".to_vec()];
    let lines = render_header_lines("\u{2192}", &headers, &redact);
    let expect: Vec<Vec<u8>> = vec![
        "\u{2192} Authorization: <redacted>".as_bytes().to_vec(),
        "\u{2192} accept: */*".as_bytes().to_vec(),
        "\u{2192} zeta: 1".as_bytes().to_vec(),
    ];
    assert_eq!(lines, expect);
}

#[test]
fn duplicated_name_prints_once_with_its_first_value() {
    // A multi-map yields each name once; the line shows the first
    // value held under it.
    let headers = vec![h("set-cookie", "a=1"), h("set-cookie", "b=2"), h("accept", "*/*")];
    let redact: Vec<Vec<u8>> = vec![];
    let lines = render_header_lines("\u{2190}", &headers, &redact);
    let expect: Vec<Vec<u8>> = vec![
        "\u{2190} accept: */*".as_bytes().to_vec(),
        "\u{2190} set-cookie: a=1".as_bytes().to_vec(),
    ];
    assert_eq!(lines, expect);
}

#[test]
fn body_preview_truncates_at_cap_and_keeps_total() {
    let body = b"abcdefghijklmnopqrst".to_vec();
    let p = body_preview(&body, 10);
    assert_eq!(p.shown, b"abcdefghij".to_vec());
    assert!(p.truncated);
    assert_eq!(p.total, 20);
}

#[test]
fn body_block_shows_first_bytes_and_truncation_marker() {
    let body = b"abcdefghijklmnopqrst".to_vec();
    let block = render_body_block("\u{2192}", &body, 10);
    let expect = "\u{2192} body (10 / 20 bytes, truncated):\nabcdefghij\n\u{2026}".as_bytes();
    assert_eq!(block, expect.to_vec());
}

#[test]
fn body_block_small_body_not_truncated() {
    let body = b"hi".to_vec();
    let block = render_body_block("\u{2190}", &body, 10);
    assert_eq!(block, "\u{2190} body (2 bytes):\nhi".as_bytes().to_vec());
}

#[test]
fn body_block_empty_body_prints_marker() {
    let block = render_body_block("\u{2192}", &Vec::new(), 10);
    assert_eq!(block, "\u{2192} <no body>".as_bytes().to_vec());
}

#[test]
fn body_block_decodes_invalid_bytes_permissively() {
    // An invalid UTF-8 byte is replaced rather than failing, so the
    // decoded preview differs from the raw bytes.
    let body = vec![104u8, 105, 0xFF];
    let block = render_body_block("\u{2192}", &body, 10);
    let expect = "\u{2192} body (3 bytes):\nhi\u{FFFD}".as_bytes().to_vec();
    assert_eq!(block, expect);
}

#[test]
fn request_log_block_is_deterministic() {
    let headers = vec![h("b", "2"), h("a", "1")];
    let redact: Vec<Vec<u8>> = vec![];
    let lines = render_request_log(
        7,
        &b"2024-01-01T00:00:00Z".to_vec(),
        &b"GET".to_vec(),
        &b"http://u/x".to_vec(),
        &b"127.0.0.1:5000".to_vec(),
        &headers,
        &redact,
        true,
        &b"hello".to_vec(),
        2048,
    );
    let expect: Vec<Vec<u8>> = vec![
        b"\n[conn#7] 2024-01-01T00:00:00Z REQUEST GET http://u/x from 127.0.0.1:5000".to_vec(),
        "\u{2192} a: 1".as_bytes().to_vec(),
        "\u{2192} b: 2".as_bytes().to_vec(),
        "\u{2192} body (5 bytes):\nhello".as_bytes().to_vec(),
    ];
    assert_eq!(lines, expect);
}

#[test]
fn response_log_block_without_bodies() {
    let headers = vec![h("content-type", "text/plain")];
    let redact: Vec<Vec<u8>> = vec![];
    let lines = render_response_log(
        7,
        &b"2024-01-01T00:00:00Z".to_vec(),
        502,
        &headers,
        &redact,
        false,
        &b"ignored".to_vec(),
        2048,
    );
    let expect: Vec<Vec<u8>> = vec![
        b"[conn#7] 2024-01-01T00:00:00Z RESPONSE 502".to_vec(),
        "\u{2190} content-type: text/plain".as_bytes().to_vec(),
    ];
    assert_eq!(lines, expect);
}
