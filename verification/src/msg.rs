//! The closed set of tagged request and response messages, their wire tags,
//! and the error kinds a connection can fail with.

use vstd::prelude::*;

verus! {

/// Wire tag of the Ping operation.
pub const TAG_PING: u8 = 0;

/// Wire tag of the Pong operation.
pub const TAG_PONG: u8 = 1;

/// Wire tag of the Add operation.
pub const TAG_ADD: u8 = 2;

/// A request: a tagged union over the fixed, closed set of operations.
/// Each variant's tag determines both its payload shape and the shape of the
/// response it is answered with.
#[derive(Clone, Copy, PartialEq, Eq, Structural, Debug)]
pub enum Request {
    Ping,
    Pong,
    Add { lhs: i32, rhs: i32 },
}

/// A response: a tagged union mirroring [`Request`] one-to-one by tag.
#[derive(Clone, PartialEq, Eq, Debug)]
pub enum Response {
    Ping(String),
    Pong(String),
    Add(i32),
}

/// The mathematical value of a [`Response`]: string payloads as character
/// sequences.
pub enum RespV {
    Ping(Seq<char>),
    Pong(Seq<char>),
    Add(i32),
}

impl View for Response {
    type V = RespV;

    open spec fn view(&self) -> RespV {
        match self {
            Response::Ping(s) => RespV::Ping(s@),
            Response::Pong(s) => RespV::Pong(s@),
            Response::Add(n) => RespV::Add(*n),
        }
    }
}

/// The tag identifying a request's variant.
pub open spec fn req_tag(r: Request) -> u8 {
    match r {
        Request::Ping => TAG_PING,
        Request::Pong => TAG_PONG,
        Request::Add { .. } => TAG_ADD,
    }
}

/// The tag identifying a response's variant.
pub open spec fn resp_tag(v: RespV) -> u8 {
    match v {
        RespV::Ping(_) => TAG_PING,
        RespV::Pong(_) => TAG_PONG,
        RespV::Add(_) => TAG_ADD,
    }
}

/// A response is representable on the wire when its string payload, if any,
/// fits the 32-bit length field of the string encoding.
pub open spec fn resp_wf(v: RespV) -> bool {
    match v {
        RespV::Ping(s) => s.len() <= u32::MAX,
        RespV::Pong(s) => s.len() <= u32::MAX,
        RespV::Add(_) => true,
    }
}

/// What can go wrong on one connection. Any of these ends only that
/// connection; none affects the listener or other connections.
#[derive(Clone, Copy, PartialEq, Eq, Structural, Debug)]
pub enum Error {
    /// I/O failure on the underlying stream.
    Transport,
    /// A frame's declared length exceeds the configured maximum.
    Framing,
    /// Bytes that correspond to no valid tagged value.
    Decode,
    /// A response value that cannot be serialized.
    Encode,
}

} // verus!
