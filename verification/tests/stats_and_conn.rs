use std::collections::HashSet;

use http_tap::conn::ConnectionCounter;
use http_tap::response::{failure_response, simple_response, ProxyFailure};
use http_tap::stats::{stats_event, Aggregator, StatsEvent};

fn ev(method: &str, path: &str, at: u64) -> StatsEvent {
    StatsEvent { method: method.as_bytes().to_vec(), path: path.as_bytes().to_vec(), at }
}

#[test]
fn aggregator_counts_per_method_and_path() {
    let mut agg = Aggregator::new();
    agg.apply(ev("GET", "/a", 1));
    agg.apply(ev("GET", "/a", 2));
    agg.apply(ev("POST", "/a", 3));
    agg.apply(ev("PUT", "/b", 4));
    agg.apply(ev("PATCH", "/b", 5));
    agg.apply(ev("DELETE", "/b", 6));
    agg.apply(ev("OPTIONS", "/b", 7));
    let snap = agg.snapshot();
    assert_eq!(snap.len(), 2);
    // Most recently seen first.
    assert_eq!(snap[0].path, b"/b".to_vec());
    assert_eq!(snap[0].last_seen, 7);
    assert_eq!(snap[0].counts.put, 1);
    assert_eq!(snap[0].counts.patch, 1);
    assert_eq!(snap[0].counts.delete_, 1);
    assert_eq!(snap[0].counts.other, 1);
    assert_eq!(snap[0].counts.get, 0);
    assert_eq!(snap[1].path, b"/a".to_vec());
    assert_eq!(snap[1].last_seen, 3);
    assert_eq!(snap[1].counts.get, 2);
    assert_eq!(snap[1].counts.post, 1);
}

#[test]
fn aggregator_updates_last_seen_in_place() {
    let mut agg = Aggregator::default();
    agg.apply(ev("GET", "/x", 10));
    agg.apply(ev("GET", "/y", 20));
    agg.apply(ev("GET", "/x", 30));
    let snap = agg.snapshot();
    assert_eq!(snap.len(), 2);
    assert_eq!(snap[0].path, b"/x".to_vec());
    assert_eq!(snap[0].last_seen, 30);
    assert_eq!(snap[0].counts.get, 2);
    assert_eq!(snap[1].path, b"/y".to_vec());
}

#[test]
fn stats_event_defaults_missing_path_to_root() {
    let e = stats_event(&b"GET".to_vec(), &None, 5);
    assert_eq!(e.path, b"/".to_vec());
    assert_eq!(e.method, b"GET".to_vec());
    assert_eq!(e.at, 5);
    let e2 = stats_event(&b"GET".to_vec(), &Some(b"/p?q=1".to_vec()), 6);
    assert_eq!(e2.path, b"/p?q=1".to_vec());
}

#[test]
fn connection_ids_are_unique_and_increasing() {
    let mut counter = ConnectionCounter::new();
    let mut seen = HashSet::new();
    let mut last = 0u64;
    for _ in 0..100 {
        let id = counter.next_conn_id();
        assert!(id > last || last == 0 && id == 1);
        assert!(seen.insert(id), "duplicate connection id {id}");
        last = id;
    }
    assert_eq!(seen.len(), 100);
}

#[test]
fn first_connection_id_is_one() {
    let mut counter = ConnectionCounter::new();
    assert_eq!(counter.next_conn_id(), 1);
    assert_eq!(counter.next_conn_id(), 2);
}

#[test]
fn body_error_yields_400() {
    let resp = failure_response(ProxyFailure::RequestBodyError);
    assert_eq!(resp.status, 400);
    assert_eq!(resp.body, b"body error".to_vec());
    assert_eq!(resp.headers.len(), 1);
    assert_eq!(resp.headers[0].name, b"content-type".to_vec());
    assert_eq!(resp.headers[0].value, b"text/plain; charset=utf-8".to_vec());
}

#[test]
fn upstream_connect_failure_yields_readable_502() {
    let resp = failure_response(ProxyFailure::UpstreamConnectError);
    assert_eq!(resp.status, 502);
    assert_eq!(resp.body, b"upstream connection failed".to_vec());
    assert!(!resp.body.is_empty());
}

#[test]
fn upstream_body_failure_yields_502() {
    let resp = failure_response(ProxyFailure::UpstreamBodyError);
    assert_eq!(resp.status, 502);
    assert_eq!(resp.body, b"upstream body error".to_vec());
}

#[test]
fn simple_response_carries_status_and_text() {
    let resp = simple_response(404, "nope");
    assert_eq!(resp.status, 404);
    assert_eq!(resp.body, b"nope".to_vec());
}
