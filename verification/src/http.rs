//! The computational side of the HTTP intercept path: decoding a buffered
//! request body into the query text, stripping the `connection` header from a
//! recorded or forwarded response, and assembling the response handed back to
//! the client. The listener, the upstream client and all socket work stay
//! outside the library and call in with plain values.
use vstd::prelude::*;

verus! {

use vstd::utf8::{valid_utf8, decode_utf8};
use crate::text::decode_utf8_vec;

/// What the proxy hands back to the client: a status code, the headers after
/// filtering, and the response body.
pub struct ClientResponse {
    pub status: u16,
    pub headers: Vec<(String, String)>,
    pub body: Vec<u8>,
}

/// `headers` without every `connection` entry (header names are kept in their
/// lower-case wire form).
pub open spec fn strip_connection(headers: Seq<(Seq<char>, Seq<char>)>) -> Seq<
    (Seq<char>, Seq<char>),
> {
    headers.filter(|h: (Seq<char>, Seq<char>)| h.0 != "connection"@)
}

/// Copies `headers`, dropping every entry named `connection`.
pub fn filter_headers(headers: &Vec<(String, String)>) -> (r: Vec<(String, String)>)
    ensures
        r.deep_view() == strip_connection(headers.deep_view()),
{
    let ghost pred = |h: (Seq<char>, Seq<char>)| h.0 != "connection"@;
    let connection = String::from_str("connection");
    let n = headers.len();
    let mut r: Vec<(String, String)> = Vec::new();
    proof {
        assert(r.deep_view() =~~= headers.deep_view().take(0).filter(pred));
    }
    let mut i: usize = 0;
    while i < n
        invariant
            i <= n,
            n == headers@.len(),
            headers@.len() == headers.deep_view().len(),
            connection@ == "connection"@,
            r.deep_view() == headers.deep_view().take(i as int).filter(pred),
            pred == (|h: (Seq<char>, Seq<char>)| h.0 != "connection"@),
        decreases n - i,
    {
        proof {
            assert(headers.deep_view()[i as int] == headers@[i as int].deep_view());
            assert(headers.deep_view().take(i + 1).drop_last() =~= headers.deep_view().take(
                i as int,
            ));
            assert(headers.deep_view().take(i + 1).last() == headers.deep_view()[i as int]);
            reveal(Seq::filter);
        }
        let ghost old_r = r.deep_view();
        if !(headers[i].0 == connection) {
            let name = headers[i].0.clone();
            let value = headers[i].1.clone();
            r.push((name, value));
            proof {
                assert(r@[old_r.len() as int] == (name, value));
                assert(r@[old_r.len() as int].deep_view() == headers.deep_view()[i as int]);
                assert(r.deep_view() =~~= old_r.push(headers.deep_view()[i as int]));
            }
        }
        proof {
            assert(r.deep_view() =~~= headers.deep_view().take(i + 1).filter(pred));
        }
        i = i + 1;
    }
    proof {
        assert(headers.deep_view().take(n as int) =~~= headers.deep_view());
    }
    r
}

/// The text a request body is fingerprinted as: its UTF-8 decoding, or the
/// fixed substitute `"Invalid UTF-8 value"` when the bytes are not valid
/// UTF-8 (so all malformed bodies fingerprint alike).
pub fn body_to_query(body: &Vec<u8>) -> (r: String)
    ensures
        valid_utf8(body@) ==> r@ == decode_utf8(body@),
        !valid_utf8(body@) ==> r@ == "Invalid UTF-8 value"@,
{
    match decode_utf8_vec(body) {
        Some(s) => s,
        None => String::from_str("Invalid UTF-8 value"),
    }
}

/// Number of HTTP worker tasks for a machine with `cpus` logical CPUs:
/// half the CPUs, but always at least one.
pub fn worker_count(cpus: usize) -> (r: usize)
    ensures
        r == if cpus / 2 >= 1 {
            cpus / 2
        } else {
            1
        },
{
    let half = cpus / 2;
    if half >= 1 {
        half
    } else {
        1
    }
}

} // verus!
