//! The shared proxy state: the transcript plus the record/replay mode flag.
//! Every worker accesses one value of this type under mutual exclusion; the
//! lock itself lives with the runtime outside the library, which only ever
//! calls these methods while holding it. No method performs I/O.
use vstd::prelude::*;

verus! {

use crate::ngrams::{fingerprint_of, score_of};
use crate::transcript::{Db, Dbly, MiddlewareData, MiddlewareDataHttp, RecordView, ReplayError,
    best_match_idx, dump_of, dump_transcript, copy_bytes};
use crate::http::{ClientResponse, filter_headers, strip_connection};

/// The proxy mode: forward-and-record, or answer from the transcript.
#[derive(Debug, Clone)]
pub enum State {
    Record,
    Replay,
}

/// The transcript and the mode flag, as one lockable unit.
#[derive(Debug, Clone)]
pub struct UnsafeAppGuts {
    db: Db,
    state: State,
}

impl UnsafeAppGuts {
    /// The recorded exchanges, in insertion order.
    pub closed spec fn records(&self) -> Seq<RecordView> {
        self.db.deep_view()
    }

    /// The current mode.
    pub closed spec fn mode(&self) -> State {
        self.state
    }

    /// Every record in the transcript is well-formed.
    pub closed spec fn wf(&self) -> bool {
        self.db.db_wf()
    }

    /// An empty transcript, in record mode.
    pub fn new() -> (r: Self)
        ensures
            r.wf(),
            r.records().len() == 0,
            r.mode() is Record,
    {
        let r = UnsafeAppGuts { db: Vec::new(), state: State::Record };
        proof {
            assert(r.records() =~= Seq::<RecordView>::empty());
        }
        r
    }

    /// Appends one record: the fingerprint of `req`, the response bytes, and
    /// the response metadata. The transcript grows by exactly one; nothing
    /// else changes.
    pub fn insert_data(&mut self, req: String, resp: Vec<u8>, http: Option<MiddlewareDataHttp>)
        requires
            old(self).wf(),
            req@.len() < u32::MAX,
            http is Some,
            (http matches Some(m) ==> m.wf()),
        ensures
            final(self).wf(),
            final(self).mode() == old(self).mode(),
            final(self).records().len() == old(self).records().len() + 1,
            (http matches Some(m) ==> final(self).records() == old(self).records().push(
                (RecordView {
                    fingerprint: fingerprint_of(req@, 3),
                    response: resp@,
                    status: m.status_spec(),
                    headers: m.headers_spec(),
                }),
            )),
    {
        let ghost old_records = self.records();
        let ghost resp_view = resp@;
        let rec = MiddlewareData::new(req, resp, http);
        self.db.push(rec);
        proof {
            assert(self.records() =~= old_records.push(rec@));
            assert(forall|i: int|
                0 <= i < old(self).db@.len() ==> self.db@[i] == #[trigger] old(self).db@[i]);
            assert(self.db@[old(self).db@.len() as int] == rec);
            assert(self.wf());
        }
    }

    /// Renders the transcript for the log.
    pub fn show_data(&self) -> (r: String)
        requires
            self.wf(),
        ensures
            r@ == dump_of(self.records()),
    {
        dump_transcript(&self.db)
    }

    /// The response body and metadata of the record scoring highest against
    /// `req`, ties resolving to the latest record.
    pub fn find_best_answer(&self, req: String) -> (r: (Vec<u8>, MiddlewareDataHttp))
        requires
            self.wf(),
            self.records().len() > 0,
            req@.len() < u32::MAX,
        ensures
            ({
                let q = fingerprint_of(req@, 3);
                let best = best_match_idx(self.records(), q);
                &&& r.0@ == self.records()[best].response
                &&& r.1.status_spec() == self.records()[best].status
                &&& r.1.headers_spec() == self.records()[best].headers
                &&& r.1.wf()
                &&& forall|i: int|
                    0 <= i < self.records().len() ==> score_of(
                        q,
                        (#[trigger] self.records()[i]).fingerprint,
                    ) <= score_of(q, self.records()[best].fingerprint)
                &&& forall|i: int|
                    best < i < self.records().len() ==> score_of(
                        q,
                        (#[trigger] self.records()[i]).fingerprint,
                    ) < score_of(q, self.records()[best].fingerprint)
            }),
    {
        self.db.find_best_response(req)
    }

    /// True in record mode.
    pub fn is_record_state(&self) -> (r: bool)
        ensures
            r == (self.mode() is Record),
    {
        match self.state {
            State::Record => true,
            State::Replay => false,
        }
    }

    /// Toggles the mode; the transcript is untouched.
    pub fn change_state(&mut self)
        requires
            old(self).wf(),
        ensures
            final(self).wf(),
            final(self).records() == old(self).records(),
            final(self).mode() is Record <==> old(self).mode() is Replay,
    {
        self.state = match self.state {
            State::Record => State::Replay,
            State::Replay => State::Record,
        };
    }

    /// One handled request in record mode, after the upstream response
    /// `(status, headers, body)` has been fully received: the exchange is
    /// appended to the transcript — it grows by exactly one — and the client
    /// response repeats the upstream status, headers minus `connection`, and
    /// body. The mode is untouched.
    pub fn record_exchange(
        &mut self,
        query: String,
        status: u16,
        headers: Vec<(String, String)>,
        body: Vec<u8>,
    ) -> (r: ClientResponse)
        requires
            old(self).wf(),
            query@.len() < u32::MAX,
            100 <= status <= 599,
        ensures
            final(self).wf(),
            final(self).mode() == old(self).mode(),
            final(self).records() == old(self).records().push(
                (RecordView {
                    fingerprint: fingerprint_of(query@, 3),
                    response: body@,
                    status: status,
                    headers: headers.deep_view(),
                }),
            ),
            r.status == status,
            r.headers.deep_view() == strip_connection(headers.deep_view()),
            r.body@ == body@,
    {
        let client_headers = filter_headers(&headers);
        let client_body = copy_bytes(&body);
        let meta = MiddlewareDataHttp::new(status, headers);
        self.insert_data(query, body, Some(meta));
        ClientResponse { status, headers: client_headers, body: client_body }
    }

    /// One handled request in replay mode: the transcript is read, never
    /// written (the receiver is shared), and the client response repeats the
    /// best-matching record's status, headers minus `connection`, and body —
    /// or `NoRecordings` when the transcript is empty.
    pub fn replay_exchange(&self, query: String) -> (r: Result<ClientResponse, ReplayError>)
        requires
            self.wf(),
            query@.len() < u32::MAX,
        ensures
            r is Err <==> self.records().len() == 0,
            (r matches Err(e) ==> e is NoRecordings),
            (r matches Ok(resp) ==> {
                let q = fingerprint_of(query@, 3);
                let best = best_match_idx(self.records(), q);
                &&& resp.status == self.records()[best].status
                &&& resp.headers.deep_view() == strip_connection(self.records()[best].headers)
                &&& resp.body@ == self.records()[best].response
                &&& forall|i: int|
                    0 <= i < self.records().len() ==> score_of(
                        q,
                        (#[trigger] self.records()[i]).fingerprint,
                    ) <= score_of(q, self.records()[best].fingerprint)
            }),
    {
        if self.db.len() == 0 {
            proof {
                assert(self.records().len() == 0);
            }
            return Err(ReplayError::NoRecordings);
        }
        proof {
            assert(self.records().len() > 0);
        }
        let (body, meta) = self.find_best_answer(query);
        let (status, headers) = meta.split();
        let client_headers = filter_headers(&headers);
        Ok(ClientResponse { status, headers: client_headers, body })
    }
}

} // verus!
