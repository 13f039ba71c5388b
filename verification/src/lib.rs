//! A record-and-replay proxy core for an HTTP database front end.
//!
//! In record mode the proxy forwards each request upstream and appends the
//! `(fingerprint, response body, response metadata)` triple to an in-memory
//! transcript. In replay mode it answers from the transcript, picking the
//! record whose fingerprint shares the most 3-gram shingles with the incoming
//! request body. This crate holds the verified core: the n-gram fingerprint,
//! the transcript store with its best-match scan, the shared record/replay
//! state, the request-handling steps, and the control-command state machine.
//! The network listeners around it live outside the library.
pub mod appguts;
pub mod control;
pub mod http;
pub mod ngrams;
pub mod text;
pub mod transcript;
