use replay_proxy::appguts::UnsafeAppGuts;
use replay_proxy::http::{body_to_query, filter_headers, worker_count};

fn headers(hs: &[(&str, &str)]) -> Vec<(String, String)> {
    hs.iter().map(|(n, v)| (n.to_string(), v.to_string())).collect()
}

#[test]
fn record_then_replay_identical_query() {
    let mut guts = UnsafeAppGuts::new();
    assert!(guts.is_record_state());

    let resp = guts.record_exchange(
        "SELECT 1 FROM t".to_string(),
        200,
        headers(&[("x-k", "v")]),
        b"OK".to_vec(),
    );
    assert_eq!(resp.status, 200);
    assert_eq!(resp.headers, headers(&[("x-k", "v")]));
    assert_eq!(resp.body, b"OK".to_vec());
    assert!(guts.show_data().starts_with("records: 1"));

    guts.change_state();
    assert!(!guts.is_record_state());

    let replayed = guts.replay_exchange("SELECT 1 FROM t".to_string()).unwrap();
    assert_eq!(replayed.status, 200);
    assert_eq!(replayed.headers, headers(&[("x-k", "v")]));
    assert_eq!(replayed.body, b"OK".to_vec());
    // Replay left the transcript unchanged.
    assert!(guts.show_data().starts_with("records: 1"));
}

#[test]
fn record_grows_transcript_by_one() {
    let mut guts = UnsafeAppGuts::new();
    assert!(guts.show_data().starts_with("records: 0"));
    guts.record_exchange("a b c".to_string(), 200, headers(&[]), b"R1".to_vec());
    assert!(guts.show_data().starts_with("records: 1"));
    guts.record_exchange("a b c".to_string(), 200, headers(&[]), b"R2".to_vec());
    assert!(guts.show_data().starts_with("records: 2"));
}

#[test]
fn replay_is_idempotent() {
    let mut guts = UnsafeAppGuts::new();
    guts.record_exchange("a b c".to_string(), 201, headers(&[("x-a", "1")]), b"R1".to_vec());
    guts.change_state();
    let first = guts.replay_exchange("a b c".to_string()).unwrap();
    let second = guts.replay_exchange("a b c".to_string()).unwrap();
    assert_eq!(first.status, second.status);
    assert_eq!(first.headers, second.headers);
    assert_eq!(first.body, second.body);
}

#[test]
fn replay_on_empty_transcript_fails() {
    let mut guts = UnsafeAppGuts::new();
    guts.change_state();
    assert!(guts.replay_exchange("anything".to_string()).is_err());
    assert!(guts.show_data().starts_with("records: 0"));
}

#[test]
fn connection_header_is_stripped() {
    let mut guts = UnsafeAppGuts::new();
    let resp = guts.record_exchange(
        "a b c".to_string(),
        200,
        headers(&[("connection", "close"), ("x-k", "v")]),
        b"OK".to_vec(),
    );
    assert_eq!(resp.headers, headers(&[("x-k", "v")]));
    guts.change_state();
    let replayed = guts.replay_exchange("a b c".to_string()).unwrap();
    assert_eq!(replayed.headers, headers(&[("x-k", "v")]));
}

#[test]
fn filter_headers_drops_every_connection_entry() {
    let out = filter_headers(&headers(&[
        ("connection", "close"),
        ("x-a", "1"),
        ("connection", "keep-alive"),
        ("x-b", "2"),
    ]));
    assert_eq!(out, headers(&[("x-a", "1"), ("x-b", "2")]));
}

#[test]
fn show_data_formats_records() {
    let mut guts = UnsafeAppGuts::new();
    assert_eq!(guts.show_data(), "records: 0");
    guts.record_exchange("a b c".to_string(), 200, headers(&[]), b"OK".to_vec());
    assert_eq!(guts.show_data(), "records: 1\nstatus 200 body bytes 2");
    guts.record_exchange("d e f".to_string(), 503, headers(&[]), vec![0u8; 1024]);
    assert_eq!(
        guts.show_data(),
        "records: 2\nstatus 200 body bytes 2\nstatus 503 body bytes 1024"
    );
}

#[test]
fn invalid_utf8_body_uses_substitute() {
    assert_eq!(body_to_query(&vec![0xff, 0xfe, 0x01]), "Invalid UTF-8 value");
    assert_eq!(body_to_query(&b"caf\xc3\xa9".to_vec()), "caf\u{e9}");
    assert_eq!(body_to_query(&b"SELECT 1".to_vec()), "SELECT 1");
}

#[test]
fn invalid_utf8_bodies_match_each_other() {
    let mut guts = UnsafeAppGuts::new();
    let q1 = body_to_query(&vec![0xff, 0x00]);
    guts.record_exchange(q1, 200, headers(&[]), b"BIN".to_vec());
    guts.change_state();
    let q2 = body_to_query(&vec![0x80, 0x80, 0x80]);
    let replayed = guts.replay_exchange(q2).unwrap();
    assert_eq!(replayed.body, b"BIN".to_vec());
}

#[test]
fn worker_count_is_half_cpus_at_least_one() {
    assert_eq!(worker_count(0), 1);
    assert_eq!(worker_count(1), 1);
    assert_eq!(worker_count(2), 1);
    assert_eq!(worker_count(8), 4);
    assert_eq!(worker_count(9), 4);
}
