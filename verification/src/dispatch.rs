//! Dispatch: the pairing of each request variant with its handler and with
//! the response variant of the same tag. The pairing is enforced by
//! construction — the match below is total over the closed variant set, so a
//! decoded request can never miss a handler and there is no "unknown
//! operation" path.

use vstd::prelude::*;

use crate::msg::{req_tag, resp_tag, resp_wf, Error, Request, RespV, Response};
use crate::text::lemma_chars_bytes_len;
use crate::wire::{decode_request, encode_response, parse_request, resp_bytes};

verus! {

/// The Add operation's result: 32-bit two's-complement (wrapping) addition.
pub open spec fn add_result(lhs: i32, rhs: i32) -> i32 {
    if lhs + rhs > i32::MAX {
        (lhs + rhs - 0x1_0000_0000) as i32
    } else if lhs + rhs < i32::MIN {
        (lhs + rhs + 0x1_0000_0000) as i32
    } else {
        (lhs + rhs) as i32
    }
}

/// The Ping operation's reply text.
pub open spec fn ping_text() -> Seq<char> {
    "You have been pinged"@
}

/// The Pong operation's reply text.
pub open spec fn pong_text() -> Seq<char> {
    "The pong has been sent"@
}

/// Handler of the Add operation.
#[allow(non_snake_case)]
pub fn Add(lhs: i32, rhs: i32) -> (r: i32)
    ensures
        r == add_result(lhs, rhs),
{
    lhs.wrapping_add(rhs)
}

/// Handler of the Ping operation.
#[allow(non_snake_case)]
pub fn Ping() -> (r: String)
    ensures
        r@ == ping_text(),
{
    "You have been pinged".to_owned()
}

/// Handler of the Pong operation.
#[allow(non_snake_case)]
pub fn Pong() -> (r: String)
    ensures
        r@ == pong_text(),
{
    "The pong has been sent".to_owned()
}

/// The response each request is answered with.
pub open spec fn dispatch_spec(req: Request) -> RespV {
    match req {
        Request::Ping => RespV::Ping(ping_text()),
        Request::Pong => RespV::Pong(pong_text()),
        Request::Add { lhs, rhs } => RespV::Add(add_result(lhs, rhs)),
    }
}

/// Dispatch totality: every request of a variant is answered with a response
/// of that same variant — never another variant, never an error.
pub proof fn lemma_dispatch_total(req: Request)
    ensures
        resp_tag(dispatch_spec(req)) == req_tag(req),
{
}

/// Every response dispatch produces is representable on the wire, so
/// encoding a dispatched response cannot fail.
pub proof fn lemma_dispatch_wf(req: Request)
    ensures
        resp_wf(dispatch_spec(req)),
{
    reveal_strlit("You have been pinged");
    reveal_strlit("The pong has been sent");
}

/// The encoded response to any request is at most 93 bytes — one tag byte, a
/// four-byte length and at most the longer reply text — so it always fits a
/// frame's 32-bit length field.
pub proof fn lemma_dispatch_resp_len(req: Request)
    ensures
        resp_bytes(dispatch_spec(req)).len() <= 93,
{
    reveal_strlit("You have been pinged");
    reveal_strlit("The pong has been sent");
    match dispatch_spec(req) {
        RespV::Ping(s) => {
            lemma_chars_bytes_len(s);
        },
        RespV::Pong(s) => {
            lemma_chars_bytes_len(s);
        },
        RespV::Add(_) => {
        },
    }
}

/// Invokes the handler bound to the request's variant and wraps its output
/// in the response variant of the same tag.
pub fn dispatch(req: Request) -> (resp: Response)
    ensures
        resp@ == dispatch_spec(req),
        resp_wf(resp@),
{
    proof {
        lemma_dispatch_wf(req);
    }
    match req {
        Request::Ping => Response::Ping(Ping()),
        Request::Pong => Response::Pong(Pong()),
        Request::Add { lhs, rhs } => Response::Add(Add(lhs, rhs)),
    }
}

/// Serves one request payload: decode, dispatch, encode. `Ok` carries the
/// encoded response exactly when the payload is the encoding of a request; on
/// any other payload the caller closes the connection with `Decode`, sending
/// nothing.
pub fn handle_request(payload: &[u8]) -> (r: Result<Vec<u8>, Error>)
    ensures
        match r {
            Ok(out) => parse_request(payload@) matches Some(req) && out@ == resp_bytes(
                dispatch_spec(req),
            ),
            Err(e) => parse_request(payload@) is None && e == Error::Decode,
        },
{
    match decode_request(payload) {
        Ok(req) => {
            let resp = dispatch(req);
            Ok(encode_response(&resp))
        },
        Err(e) => Err(e),
    }
}

} // verus!
