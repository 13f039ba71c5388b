use replay_proxy::transcript::{best_match, Db, Dbly, MiddlewareData, MiddlewareDataHttp,
    ReplayError};

fn meta(status: u16, headers: &[(&str, &str)]) -> MiddlewareDataHttp {
    let hs: Vec<(String, String)> =
        headers.iter().map(|(n, v)| (n.to_string(), v.to_string())).collect();
    MiddlewareDataHttp::new(status, hs)
}

fn record(req: &str, body: &[u8], status: u16, headers: &[(&str, &str)]) -> MiddlewareData {
    MiddlewareData::new(req.to_string(), body.to_vec(), Some(meta(status, headers)))
}

#[test]
fn tie_break_prefers_latest() {
    let mut db: Db = Vec::new();
    db.push(record("a b c", b"R1", 200, &[]));
    db.push(record("a b c", b"R2", 200, &[]));
    let (body, _) = db.find_best_response("a b c".to_string());
    assert_eq!(body, b"R2".to_vec());
}

#[test]
fn best_match_by_overlap() {
    let mut db: Db = Vec::new();
    db.push(record("select count from users", b"R1", 200, &[]));
    db.push(record("select name from orders", b"R2", 200, &[]));
    let (body, _) = db.find_best_response("select count from users where id=1".to_string());
    assert_eq!(body, b"R1".to_vec());
}

#[test]
fn empty_transcript_is_no_recordings() {
    let db: Db = Vec::new();
    let r = best_match(&db, "anything".to_string());
    assert!(matches!(r, Err(ReplayError::NoRecordings)));
}

#[test]
fn best_match_returns_recorded_metadata() {
    let mut db: Db = Vec::new();
    db.push(record("SELECT 1 FROM t", b"OK", 200, &[("x-k", "v")]));
    let r = best_match(&db, "SELECT 1 FROM t".to_string());
    let (body, m) = r.unwrap_or_else(|_| panic!("expected a match"));
    assert_eq!(body, b"OK".to_vec());
    let (status, headers) = m.split();
    assert_eq!(status, 200);
    assert_eq!(headers, vec![("x-k".to_string(), "v".to_string())]);
}

#[test]
fn no_overlap_still_answers() {
    // Even a query sharing nothing with the transcript gets the (tie-broken)
    // latest record, since every score is zero.
    let mut db: Db = Vec::new();
    db.push(record("one two three", b"R1", 200, &[]));
    db.push(record("four five six", b"R2", 200, &[]));
    let (body, _) = db.find_best_response("seven eight nine".to_string());
    assert_eq!(body, b"R2".to_vec());
}
