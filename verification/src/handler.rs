//! Per-connection decision logic.
//!
//! A connection handler reads once from the client, asks the pool for a
//! backend, and then either forwards the (possibly truncated) request and
//! relays the backend's answer verbatim, or writes one of two fixed
//! status-line-shaped replies. The socket work happens outside this crate;
//! the functions here take the plain values those steps produce and pin down
//! the exact bytes that cross each boundary.

use vstd::prelude::*;
use vstd::string::StringSliceAdditionalSpecFns;

use crate::pool::Backend;

verus! {

/// Largest number of request bytes taken from the client's single initial
/// read; anything beyond it is never forwarded.
pub const MAX_REQUEST_BYTES: usize = 4096;

/// Reply written to the client when the pool offers no backend.
pub open spec fn no_backend_reply_bytes() -> Seq<u8> {
    "HTTP/1.1 503 Service Unavailable\r\n\r\nNo backend servers available".spec_bytes()
}

/// Reply written to the client when the chosen backend cannot be reached.
pub open spec fn backend_unreachable_reply_bytes() -> Seq<u8> {
    "HTTP/1.1 502 Bad Gateway\r\n\r\nBackend server unavailable".spec_bytes()
}

/// The handler's next move once the pool has answered.
pub enum Dispatch {
    /// Open an outbound connection to this backend and forward the request.
    Forward(Backend),
    /// Write these bytes to the client and finish, with no outbound
    /// connection attempt.
    ReplyNow(Vec<u8>),
}

/// Decides the handler's next move from the pool's answer: a chosen backend
/// is forwarded to; an empty answer is turned into the fixed
/// no-backend reply, and nothing is connected to.
pub fn dispatch(selected: Option<Backend>) -> (d: Dispatch)
    ensures
        (selected matches Some(b) ==> (d matches Dispatch::Forward(f) && f@ == b@)),
        (selected is None ==> (d matches Dispatch::ReplyNow(r)
            && r@ == no_backend_reply_bytes())),
{
    match selected {
        Some(backend) => Dispatch::Forward(backend),
        None => Dispatch::ReplyNow(vstd::slice::slice_to_vec(
            "HTTP/1.1 503 Service Unavailable\r\n\r\nNo backend servers available".as_bytes(),
        )),
    }
}

/// The outcome of forwarding the request to the chosen backend.
pub enum ForwardOutcome {
    /// The outbound connection failed; no request bytes were delivered.
    ConnectFailed,
    /// The backend took the request and sent these bytes back before
    /// closing its side.
    Responded(Vec<u8>),
}

/// The bytes the handler writes back to the client once a backend was
/// chosen: a backend response is relayed verbatim, byte for byte; a failed
/// connection gets the fixed bad-gateway reply.
pub open spec fn reply_for(outcome: ForwardOutcome) -> Seq<u8> {
    match outcome {
        ForwardOutcome::ConnectFailed => backend_unreachable_reply_bytes(),
        ForwardOutcome::Responded(body) => body@,
    }
}

/// Builds the client's reply from the forwarding outcome; see `reply_for`.
pub fn reply_to_client(outcome: ForwardOutcome) -> (r: Vec<u8>)
    ensures
        r@ == reply_for(outcome),
{
    match outcome {
        ForwardOutcome::ConnectFailed => vstd::slice::slice_to_vec(
            "HTTP/1.1 502 Bad Gateway\r\n\r\nBackend server unavailable".as_bytes(),
        ),
        ForwardOutcome::Responded(body) => body,
    }
}

/// The request bytes a client read window yields for forwarding: the window
/// itself when it fits, else only its first `MAX_REQUEST_BYTES` bytes. The
/// rest is dropped, never forwarded (single fixed-size read, no framing).
pub open spec fn forwarded_request(data: Seq<u8>) -> Seq<u8> {
    if data.len() <= MAX_REQUEST_BYTES {
        data
    } else {
        data.take(MAX_REQUEST_BYTES as int)
    }
}

/// Extracts the request payload from the client's read window; see
/// `forwarded_request`.
pub fn request_payload(data: &[u8]) -> (p: Vec<u8>)
    ensures
        p@ == forwarded_request(data@),
{
    let n: usize = if data.len() <= MAX_REQUEST_BYTES {
        data.len()
    } else {
        MAX_REQUEST_BYTES
    };
    let mut p: Vec<u8> = Vec::new();
    let mut i: usize = 0;
    while i < n
        invariant
            i <= n <= data@.len(),
            p@ == data@.take(i as int),
        decreases n - i,
    {
        p.push(data[i]);
        proof {
            assert(p@ =~= data@.take(i + 1));
        }
        i = i + 1;
    }
    proof {
        assert(data@.take(data@.len() as int) =~= data@);
    }
    p
}

} // verus!
