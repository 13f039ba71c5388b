//! The transcript: an append-only log of recorded exchanges. Each record
//! holds the fingerprint of the request body, the response body, and the
//! response metadata (status and headers). Replay looks up the record whose
//! fingerprint scores highest against the incoming request, resolving ties in
//! favour of the latest-inserted record.
use vstd::prelude::*;

verus! {

use crate::ngrams::{Ngrams, fingerprint_of, score_of};
use crate::text::{dec_str, append_decimal};

/// Response metadata: the status code and the ordered response headers.
#[derive(Debug, Clone)]
pub struct MiddlewareDataHttp {
    status: u16,
    headers: Vec<(String, String)>,
}

impl MiddlewareDataHttp {
    /// The status code.
    pub closed spec fn status_spec(&self) -> u16 {
        self.status
    }

    /// The header list, as (name, value) character sequences.
    pub closed spec fn headers_spec(&self) -> Seq<(Seq<char>, Seq<char>)> {
        self.headers.deep_view()
    }

    /// The status code lies in the HTTP range.
    pub open spec fn wf(&self) -> bool {
        100 <= self.status_spec() <= 599
    }

    pub fn new(status: u16, headers: Vec<(String, String)>) -> (r: Self)
        requires
            100 <= status <= 599,
        ensures
            r.status_spec() == status,
            r.headers_spec() == headers.deep_view(),
            r.wf(),
    {
        MiddlewareDataHttp { status, headers }
    }

    /// The status and a copy of the headers.
    pub fn split(&self) -> (r: (u16, Vec<(String, String)>))
        ensures
            r.0 == self.status_spec(),
            r.1.deep_view() == self.headers_spec(),
    {
        (self.status, copy_headers(&self.headers))
    }
}

/// Copies a header list; the copy reads back the same names and values.
pub fn copy_headers(h: &Vec<(String, String)>) -> (r: Vec<(String, String)>)
    ensures
        r.deep_view() == h.deep_view(),
{
    let n = h.len();
    let mut r: Vec<(String, String)> = Vec::new();
    proof {
        assert(r.deep_view() =~~= h.deep_view().take(0));
    }
    let mut i: usize = 0;
    while i < n
        invariant
            i <= n,
            n == h@.len(),
            h@.len() == h.deep_view().len(),
            r@.len() == i,
            r.deep_view() == h.deep_view().take(i as int),
        decreases n - i,
    {
        let name = h[i].0.clone();
        let value = h[i].1.clone();
        r.push((name, value));
        proof {
            assert(r@[i as int] == (name, value));
            assert(r@[i as int].deep_view() == (name@, value@));
            assert(name == h@[i as int].0 && value == h@[i as int].1);
            assert(h.deep_view()[i as int] == h@[i as int].deep_view());
            assert(h@[i as int].deep_view() == (h@[i as int].0@, h@[i as int].1@));
        }
        i = i + 1;
        proof {
            assert(r.deep_view() =~~= h.deep_view().take(i as int));
        }
    }
    proof {
        assert(h.deep_view().take(n as int) =~~= h.deep_view());
    }
    r
}

/// Copies a byte string.
pub fn copy_bytes(v: &Vec<u8>) -> (r: Vec<u8>)
    ensures
        r@ == v@,
{
    let n = v.len();
    let mut r: Vec<u8> = Vec::new();
    let mut i: usize = 0;
    while i < n
        invariant
            i <= n,
            n == v@.len(),
            r@ == v@.take(i as int),
        decreases n - i,
    {
        r.push(v[i]);
        i = i + 1;
        assert(r@ =~= v@.take(i as int));
    }
    assert(v@.take(n as int) =~= v@);
    r
}

/// What one transcript record holds, mathematically: the request fingerprint,
/// the response body, and the response metadata.
pub ghost struct RecordView {
    pub fingerprint: Set<Seq<char>>,
    pub response: Seq<u8>,
    pub status: u16,
    pub headers: Seq<(Seq<char>, Seq<char>)>,
}

/// One recorded exchange: the fingerprint of the request body, the response
/// body, and the response metadata. The request text itself is not retained.
#[derive(Debug, Clone)]
pub struct MiddlewareData {
    request: Ngrams,
    response: Vec<u8>,
    http: Option<MiddlewareDataHttp>,
}

impl View for MiddlewareData {
    type V = RecordView;

    closed spec fn view(&self) -> RecordView {
        RecordView {
            fingerprint: self.request.shingle_set(),
            response: self.response@,
            status: match self.http {
                Some(m) => m.status_spec(),
                None => 0,
            },
            headers: match self.http {
                Some(m) => m.headers_spec(),
                None => Seq::empty(),
            },
        }
    }
}

impl DeepView for MiddlewareData {
    type V = RecordView;

    open spec fn deep_view(&self) -> RecordView {
        self@
    }
}

impl MiddlewareData {
    /// The record carries metadata, its status is in range, and its stored
    /// fingerprint is usable for scoring.
    pub closed spec fn wf(&self) -> bool {
        &&& self.request.wf()
        &&& self.http is Some
        &&& (self.http matches Some(m) ==> m.wf())
    }

    /// Builds a record from a request body, a response body and its metadata.
    /// The fingerprint uses windows of exactly 3 tokens.
    pub fn new(req: String, resp: Vec<u8>, http: Option<MiddlewareDataHttp>) -> (r: Self)
        requires
            req@.len() < u32::MAX,
            http is Some,
            (http matches Some(m) ==> m.wf()),
        ensures
            r.wf(),
            r@.fingerprint == fingerprint_of(req@, 3),
            r@.response == resp@,
            (http matches Some(m) ==> r@.status == m.status_spec() && r@.headers
                == m.headers_spec()),
    {
        MiddlewareData { request: Ngrams::new(3, req), response: resp, http }
    }
}

/// The transcript: an ordered, append-only sequence of records.
pub type Db = Vec<MiddlewareData>;

/// The index the best-match scan settles on: the last index whose fingerprint
/// scores maximally against the query `q`. Mirrors a left-to-right scan that
/// replaces its candidate whenever a record scores greater than *or equal to*
/// the best seen, so ties resolve to the latest record.
pub open spec fn best_match_idx(records: Seq<RecordView>, q: Set<Seq<char>>) -> int
    decreases records.len(),
{
    if records.len() <= 1 {
        0
    } else {
        let prev = best_match_idx(records.drop_last(), q);
        if score_of(q, records.last().fingerprint) >= score_of(q, records[prev].fingerprint) {
            records.len() - 1
        } else {
            prev
        }
    }
}

/// For a non-empty transcript, the best-match index is in range, no record
/// scores above it, and every record after it scores strictly below it — the
/// chosen record maximizes the score and ties resolve to the largest index.
pub proof fn lemma_best_match_maximal(records: Seq<RecordView>, q: Set<Seq<char>>)
    requires
        records.len() > 0,
    ensures
        0 <= best_match_idx(records, q) < records.len(),
        forall|i: int| 0 <= i < records.len() ==> score_of(q, (#[trigger] records[i]).fingerprint) <= score_of(
            q,
            records[best_match_idx(records, q)].fingerprint,
        ),
        forall|i: int|
            best_match_idx(records, q) < i < records.len() ==> score_of(q, (#[trigger] records[i]).fingerprint)
                < score_of(q, records[best_match_idx(records, q)].fingerprint),
    decreases records.len(),
{
    if records.len() > 1 {
        lemma_best_match_maximal(records.drop_last(), q);
        assert(forall|i: int| 0 <= i < records.len() - 1 ==> records.drop_last()[i] == records[i]);
    }
}

/// Record, then replay: when the latest record — say the one an exchange just
/// appended — scores at least as high against a query as every earlier record,
/// the best-match scan picks exactly it, ties included. In particular a query
/// repeating a just-recorded request replays that request's response.
pub proof fn lemma_record_then_replay(records: Seq<RecordView>, q: Set<Seq<char>>)
    requires
        records.len() > 0,
        forall|i: int|
            0 <= i < records.len() - 1 ==> score_of(q, (#[trigger] records[i]).fingerprint)
                <= score_of(q, records.last().fingerprint),
    ensures
        best_match_idx(records, q) == records.len() - 1,
{
    if records.len() > 1 {
        let prev = best_match_idx(records.drop_last(), q);
        lemma_best_match_maximal(records.drop_last(), q);
        assert(records.drop_last()[prev] == records[prev]);
    }
}

/// A query whose fingerprint equals the latest record's fingerprint — a
/// repeat of the most recently recorded request — replays exactly that
/// record: it scores its full set size against itself and no record can score
/// higher, so the latest-wins tie-break settles on the last index.
pub proof fn lemma_identical_query_replays_latest(records: Seq<RecordView>)
    requires
        records.len() > 0,
        records.last().fingerprint.finite(),
    ensures
        best_match_idx(records, records.last().fingerprint) == records.len() - 1,
{
    let q = records.last().fingerprint;
    crate::ngrams::lemma_score_self(q);
    assert forall|i: int| 0 <= i < records.len() - 1 implies score_of(
        q,
        (#[trigger] records[i]).fingerprint,
    ) <= score_of(q, records.last().fingerprint) by {
        crate::ngrams::lemma_score_bounded(q, records[i].fingerprint);
    }
    lemma_record_then_replay(records, q);
}

/// Best-match lookup over the transcript.
pub trait Dbly {
    /// The transcript's records, in insertion order.
    spec fn records(&self) -> Seq<RecordView>;

    /// Every record is well-formed.
    spec fn db_wf(&self) -> bool;

    /// The response body and metadata of the record whose fingerprint scores
    /// highest against the fingerprint of `req`, ties resolving to the latest
    /// record.
    fn find_best_response(&self, req: String) -> (r: (Vec<u8>, MiddlewareDataHttp))
        requires
            self.db_wf(),
            self.records().len() > 0,
            req@.len() < u32::MAX,
        ensures
            ({
                let q = fingerprint_of(req@, 3);
                let best = best_match_idx(self.records(), q);
                &&& r.0@ == self.records()[best].response
                &&& r.1.status_spec() == self.records()[best].status
                &&& r.1.headers_spec() == self.records()[best].headers
                &&& r.1.wf()
                &&& forall|i: int|
                    0 <= i < self.records().len() ==> score_of(q, (#[trigger] self.records()[i]).fingerprint)
                        <= score_of(q, self.records()[best].fingerprint)
                &&& forall|i: int|
                    best < i < self.records().len() ==> score_of(
                        q,
                        (#[trigger] self.records()[i]).fingerprint,
                    ) < score_of(q, self.records()[best].fingerprint)
            }),
    ;
}

impl Dbly for Db {
    open spec fn records(&self) -> Seq<RecordView> {
        self.deep_view()
    }

    open spec fn db_wf(&self) -> bool {
        forall|i: int| 0 <= i < self@.len() ==> (#[trigger] self@[i]).wf()
    }

    fn find_best_response(&self, req: String) -> (r: (Vec<u8>, MiddlewareDataHttp)) {
        let req_ngrams = Ngrams::new(3, req);
        let ghost q = fingerprint_of(req@, 3);
        let ghost recs = self.records();
        let n = self.len();
        let mut best_score: u32 = 0;
        let mut idx: usize = 0;
        let mut i: usize = 0;
        while i < n
            invariant
                i <= n,
                n == self@.len(),
                self@.len() == recs.len(),
                recs == self.records(),
                self.db_wf(),
                req_ngrams.wf(),
                q == req_ngrams.shingle_set(),
                i > 0 ==> idx as int == best_match_idx(recs.take(i as int), q),
                i > 0 ==> idx < i && best_score as nat == score_of(q, recs[idx as int].fingerprint),
                i == 0 ==> idx == 0 && best_score == 0,
            decreases n - i,
        {
            proof {
                assert(self@[i as int].wf());
                assert(recs[i as int] == self@[i as int]@);
            }
            let new_score = req_ngrams.compatibility_score(&self[i].request);
            proof {
                assert(recs.take(i + 1).drop_last() =~= recs.take(i as int));
                assert(recs.take(i + 1).last() == recs[i as int]);
            }
            if new_score >= best_score {
                best_score = new_score;
                idx = i;
            }
            i = i + 1;
        }
        proof {
            assert(recs.take(n as int) =~= recs);
        }
        let body = copy_bytes(&self[idx].response);
        let meta = match &self[idx].http {
            Some(m) => MiddlewareDataHttp::new(m.status, copy_headers(&m.headers)),
            None => {
                proof {
                    assert(self@[idx as int].wf());
                }
                vstd::pervasive::unreached()
            },
        };
        proof {
            lemma_best_match_maximal(recs, q);
            assert(recs[idx as int] == self@[idx as int]@);
        }
        (body, meta)
    }
}

/// One dump line per record: its status code and its response-body length.
pub open spec fn dump_entries(records: Seq<RecordView>) -> Seq<char>
    decreases records.len(),
{
    if records.len() == 0 {
        Seq::empty()
    } else {
        dump_entries(records.drop_last()) + "\nstatus "@ + dec_str(records.last().status as nat)
            + " body bytes "@ + dec_str(records.last().response.len())
    }
}

/// The text a transcript dump shows: the record count, then one line per
/// record.
pub open spec fn dump_of(records: Seq<RecordView>) -> Seq<char> {
    "records: "@ + dec_str(records.len()) + dump_entries(records)
}

/// Renders the transcript for the log.
pub fn dump_transcript(db: &Db) -> (r: String)
    requires
        db.db_wf(),
    ensures
        r@ == dump_of(db.records()),
{
    let ghost recs = db.records();
    let n = db.len();
    let mut out = String::new();
    out.append("records: ");
    append_decimal(&mut out, n as u64);
    proof {
        assert(recs.take(0) =~= Seq::<RecordView>::empty());
        assert(out@ =~= "records: "@ + dec_str(n as nat) + dump_entries(recs.take(0)));
    }
    let mut i: usize = 0;
    while i < n
        invariant
            i <= n,
            n == db@.len(),
            db@.len() == recs.len(),
            recs == db.records(),
            db.db_wf(),
            out@ == "records: "@ + dec_str(n as nat) + dump_entries(recs.take(i as int)),
        decreases n - i,
    {
        proof {
            assert(db@[i as int].wf());
            assert(recs[i as int] == db@[i as int]@);
        }
        let status: u16 = match &db[i].http {
            Some(m) => m.status,
            None => vstd::pervasive::unreached(),
        };
        let body_len = db[i].response.len();
        out.append("\nstatus ");
        append_decimal(&mut out, status as u64);
        out.append(" body bytes ");
        append_decimal(&mut out, body_len as u64);
        proof {
            assert(recs.take(i + 1).drop_last() =~= recs.take(i as int));
            assert(recs.take(i + 1).last() == recs[i as int]);
            assert(out@ =~= "records: "@ + dec_str(n as nat) + dump_entries(recs.take(i + 1)));
        }
        i = i + 1;
    }
    proof {
        assert(recs.take(n as int) =~= recs);
    }
    out
}

/// A replay failure: the transcript has nothing to answer from.
#[derive(Debug, Clone, PartialEq, Eq, Structural)]
pub enum ReplayError {
    NoRecordings,
}

/// Best-match lookup that signals an empty transcript instead of requiring a
/// non-empty one: `Err(NoRecordings)` exactly when the transcript is empty,
/// otherwise the same record that `find_best_response` returns.
pub fn best_match(db: &Db, req: String) -> (r: Result<(Vec<u8>, MiddlewareDataHttp), ReplayError>)
    requires
        db.db_wf(),
        req@.len() < u32::MAX,
    ensures
        r is Err <==> db.records().len() == 0,
        (r matches Err(e) ==> e is NoRecordings),
        (r matches Ok(p) ==> {
            let q = fingerprint_of(req@, 3);
            let best = best_match_idx(db.records(), q);
            &&& p.0@ == db.records()[best].response
            &&& p.1.status_spec() == db.records()[best].status
            &&& p.1.headers_spec() == db.records()[best].headers
            &&& p.1.wf()
            &&& forall|i: int|
                0 <= i < db.records().len() ==> score_of(q, (#[trigger] db.records()[i]).fingerprint)
                    <= score_of(q, db.records()[best].fingerprint)
        }),
{
    if db.len() == 0 {
        Err(ReplayError::NoRecordings)
    } else {
        proof {
            lemma_best_match_maximal(db.records(), fingerprint_of(req@, 3));
        }
        Ok(db.find_best_response(req))
    }
}

} // verus!
