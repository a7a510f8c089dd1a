//! The fixed binary encoding of requests and responses: one tag byte, then the
//! variant's fields, every multi-byte numeric field big-endian. The decoder is
//! exact: it accepts a byte sequence only if it is the encoding of a value,
//! rejecting unknown tags, truncated payloads and trailing bytes.

use vstd::prelude::*;

use crate::be::{
    i32_bits, i32_from_bits, i32_of_bits, i32_to_bits, lemma_i32_bits_round_trip,
    lemma_i32_of_bits_inverse, lemma_u32_be_round_trip, lemma_u32_of_be_inverse, push_u32_be,
    read_u32_be, u32_be_bytes, u32_of_be,
};
use crate::msg::{resp_wf, Error, Request, RespV, Response, TAG_ADD, TAG_PING, TAG_PONG};
use crate::text::{
    chars_bytes, lemma_chars_bytes_len, lemma_parse_chars_exact, lemma_parse_chars_round_trip,
    parse_chars, push_string, read_chars, str_bytes,
};

verus! {

/// The encoding of a request: its tag byte, then its fields.
pub open spec fn req_bytes(r: Request) -> Seq<u8> {
    match r {
        Request::Ping => seq![TAG_PING],
        Request::Pong => seq![TAG_PONG],
        Request::Add { lhs, rhs } => seq![TAG_ADD] + u32_be_bytes(i32_bits(lhs)) + u32_be_bytes(
            i32_bits(rhs),
        ),
    }
}

/// The request a byte sequence denotes, if any.
pub open spec fn parse_request(b: Seq<u8>) -> Option<Request> {
    if b.len() == 1 && b[0] == TAG_PING {
        Some(Request::Ping)
    } else if b.len() == 1 && b[0] == TAG_PONG {
        Some(Request::Pong)
    } else if b.len() == 9 && b[0] == TAG_ADD {
        Some(
            Request::Add {
                lhs: i32_of_bits(u32_of_be(b[1], b[2], b[3], b[4])),
                rhs: i32_of_bits(u32_of_be(b[5], b[6], b[7], b[8])),
            },
        )
    } else {
        None
    }
}

/// Round trip: every representable request decodes from its own encoding.
pub proof fn lemma_request_round_trip(r: Request)
    ensures
        parse_request(req_bytes(r)) == Some(r),
{
    match r {
        Request::Ping => {
        },
        Request::Pong => {
        },
        Request::Add { lhs, rhs } => {
            let b = req_bytes(r);
            assert(b.len() == 9);
            assert(b[0] == TAG_ADD);
            lemma_u32_be_round_trip(i32_bits(lhs));
            lemma_u32_be_round_trip(i32_bits(rhs));
            assert(b[1] == u32_be_bytes(i32_bits(lhs))[0]);
            assert(b[2] == u32_be_bytes(i32_bits(lhs))[1]);
            assert(b[3] == u32_be_bytes(i32_bits(lhs))[2]);
            assert(b[4] == u32_be_bytes(i32_bits(lhs))[3]);
            assert(b[5] == u32_be_bytes(i32_bits(rhs))[0]);
            assert(b[6] == u32_be_bytes(i32_bits(rhs))[1]);
            assert(b[7] == u32_be_bytes(i32_bits(rhs))[2]);
            assert(b[8] == u32_be_bytes(i32_bits(rhs))[3]);
            lemma_i32_bits_round_trip(lhs);
            lemma_i32_bits_round_trip(rhs);
        },
    }
}

/// Exactness: a byte sequence that parses as a request is that request's
/// encoding — the encoding is the unique image and parsing is injective.
pub proof fn lemma_parse_request_exact(b: Seq<u8>, r: Request)
    requires
        parse_request(b) == Some(r),
    ensures
        req_bytes(r) == b,
{
    if b.len() == 9 && b[0] == TAG_ADD {
        let lu = u32_of_be(b[1], b[2], b[3], b[4]);
        let ru = u32_of_be(b[5], b[6], b[7], b[8]);
        lemma_i32_of_bits_inverse(lu);
        lemma_i32_of_bits_inverse(ru);
        lemma_u32_of_be_inverse(b[1], b[2], b[3], b[4]);
        lemma_u32_of_be_inverse(b[5], b[6], b[7], b[8]);
        assert(req_bytes(r) =~= b);
    } else {
        assert(req_bytes(r) =~= b);
    }
}

/// Encodes a request. Every request is encodable.
pub fn encode_request(r: &Request) -> (out: Vec<u8>)
    ensures
        out@ == req_bytes(*r),
{
    let mut out: Vec<u8> = Vec::new();
    match r {
        Request::Ping => {
            out.push(TAG_PING);
        },
        Request::Pong => {
            out.push(TAG_PONG);
        },
        Request::Add { lhs, rhs } => {
            out.push(TAG_ADD);
            push_u32_be(&mut out, i32_to_bits(*lhs));
            push_u32_be(&mut out, i32_to_bits(*rhs));
        },
    }
    proof {
        assert(out@ =~= req_bytes(*r));
    }
    out
}

/// Decodes a request: `Ok` exactly on the encodings of requests, `Decode`
/// on every other byte sequence.
pub fn decode_request(b: &[u8]) -> (r: Result<Request, Error>)
    ensures
        match r {
            Ok(req) => parse_request(b@) == Some(req),
            Err(e) => parse_request(b@) is None && e == Error::Decode,
        },
{
    if b.len() == 1 && b[0] == TAG_PING {
        Ok(Request::Ping)
    } else if b.len() == 1 && b[0] == TAG_PONG {
        Ok(Request::Pong)
    } else if b.len() == 9 && b[0] == TAG_ADD {
        let lhs = i32_from_bits(read_u32_be(b, 1));
        let rhs = i32_from_bits(read_u32_be(b, 5));
        Ok(Request::Add { lhs, rhs })
    } else {
        Err(Error::Decode)
    }
}

/// The encoding of a response: its tag byte, then its payload.
pub open spec fn resp_bytes(v: RespV) -> Seq<u8> {
    match v {
        RespV::Ping(s) => seq![TAG_PING] + str_bytes(s),
        RespV::Pong(s) => seq![TAG_PONG] + str_bytes(s),
        RespV::Add(n) => seq![TAG_ADD] + u32_be_bytes(i32_bits(n)),
    }
}

/// The response a byte sequence denotes, if any.
pub open spec fn parse_response(b: Seq<u8>) -> Option<RespV> {
    if b.len() < 1 {
        None
    } else if (b[0] == TAG_PING || b[0] == TAG_PONG) && b.len() >= 5 {
        let n = u32_of_be(b[1], b[2], b[3], b[4]);
        match parse_chars(b.skip(5), n as nat) {
            Some(s) => Some(
                if b[0] == TAG_PING {
                    RespV::Ping(s)
                } else {
                    RespV::Pong(s)
                },
            ),
            None => None,
        }
    } else if b[0] == TAG_ADD && b.len() == 5 {
        Some(RespV::Add(i32_of_bits(u32_of_be(b[1], b[2], b[3], b[4]))))
    } else {
        None
    }
}

/// Round trip: every representable response decodes from its own encoding.
pub proof fn lemma_response_round_trip(v: RespV)
    requires
        resp_wf(v),
    ensures
        parse_response(resp_bytes(v)) == Some(v),
{
    let b = resp_bytes(v);
    match v {
        RespV::Ping(s) | RespV::Pong(s) => {
            lemma_chars_bytes_len(s);
            let m = s.len() as u32;
            lemma_u32_be_round_trip(m);
            assert(b[1] == u32_be_bytes(m)[0]);
            assert(b[2] == u32_be_bytes(m)[1]);
            assert(b[3] == u32_be_bytes(m)[2]);
            assert(b[4] == u32_be_bytes(m)[3]);
            assert(u32_of_be(b[1], b[2], b[3], b[4]) == m);
            assert(b.skip(5) =~= chars_bytes(s));
            lemma_parse_chars_round_trip(s);
        },
        RespV::Add(n) => {
            lemma_u32_be_round_trip(i32_bits(n));
            assert(b[1] == u32_be_bytes(i32_bits(n))[0]);
            assert(b[2] == u32_be_bytes(i32_bits(n))[1]);
            assert(b[3] == u32_be_bytes(i32_bits(n))[2]);
            assert(b[4] == u32_be_bytes(i32_bits(n))[3]);
            lemma_i32_bits_round_trip(n);
        },
    }
}

/// Exactness: a byte sequence that parses as a response is that response's
/// encoding, and the response is representable.
pub proof fn lemma_parse_response_exact(b: Seq<u8>, v: RespV)
    requires
        parse_response(b) == Some(v),
    ensures
        resp_bytes(v) == b,
        resp_wf(v),
{
    if (b[0] == TAG_PING || b[0] == TAG_PONG) && b.len() >= 5 {
        let n = u32_of_be(b[1], b[2], b[3], b[4]);
        let s = parse_chars(b.skip(5), n as nat)->0;
        lemma_parse_chars_exact(b.skip(5), n as nat, s);
        lemma_u32_of_be_inverse(b[1], b[2], b[3], b[4]);
        assert(u32_be_bytes(s.len() as u32) =~= seq![b[1], b[2], b[3], b[4]]);
        assert(resp_bytes(v) =~= b);
    } else {
        let n = u32_of_be(b[1], b[2], b[3], b[4]);
        lemma_i32_of_bits_inverse(n);
        lemma_u32_of_be_inverse(b[1], b[2], b[3], b[4]);
        assert(resp_bytes(v) =~= b);
    }
}

/// Encodes a response. Every representable response is encodable.
pub fn encode_response(resp: &Response) -> (out: Vec<u8>)
    requires
        resp_wf(resp@),
    ensures
        out@ == resp_bytes(resp@),
{
    let mut out: Vec<u8> = Vec::new();
    match resp {
        Response::Ping(s) => {
            out.push(TAG_PING);
            push_string(&mut out, s);
        },
        Response::Pong(s) => {
            out.push(TAG_PONG);
            push_string(&mut out, s);
        },
        Response::Add(n) => {
            out.push(TAG_ADD);
            push_u32_be(&mut out, i32_to_bits(*n));
        },
    }
    proof {
        assert(out@ =~= resp_bytes(resp@));
    }
    out
}

/// Decodes a response: `Ok` exactly on the encodings of representable
/// responses, `Decode` on every other byte sequence.
pub fn decode_response(b: &[u8]) -> (r: Result<Response, Error>)
    ensures
        match r {
            Ok(resp) => parse_response(b@) == Some(resp@),
            Err(e) => parse_response(b@) is None && e == Error::Decode,
        },
{
    if b.len() >= 5 && (b[0] == TAG_PING || b[0] == TAG_PONG) {
        let tag = b[0];
        let n = read_u32_be(b, 1);
        match read_chars(b, 5, n) {
            Ok(s) => {
                if tag == TAG_PING {
                    Ok(Response::Ping(s))
                } else {
                    Ok(Response::Pong(s))
                }
            },
            Err(e) => Err(e),
        }
    } else if b.len() == 5 && b[0] == TAG_ADD {
        Ok(Response::Add(i32_from_bits(read_u32_be(b, 1))))
    } else {
        Err(Error::Decode)
    }
}

} // verus!
