//! A minimal connection-oriented RPC core: length-prefixed framing over a byte
//! stream, a fixed big-endian binary encoding of a closed set of tagged
//! request/response messages, total dispatch from request to response, and the
//! per-connection session state machine that ties them together.
//!
//! The library is pure logic: an embedding program performs the socket I/O and
//! feeds raw bytes and lifecycle events to [`session::Session`], writing out
//! whatever frames the session hands back.

pub mod be;
pub mod dispatch;
pub mod frame;
pub mod lifecycle;
pub mod msg;
pub mod session;
pub mod text;
pub mod wire;

