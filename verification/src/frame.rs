//! Length-prefixed framing: a frame on the wire is a 32-bit big-endian
//! payload length, then that many payload bytes. The decoder buffers partial
//! deliveries and yields a frame only once it is complete; a declared length
//! over the configured maximum is rejected before the payload is read.

use vstd::prelude::*;

use crate::be::{push_u32_be, read_u32_be, u32_be_bytes, u32_of_be, lemma_u32_be_round_trip};
use crate::msg::Error;

verus! {

/// The wire form of one frame: four big-endian length bytes, then the payload.
pub open spec fn frame_bytes(p: Seq<u8>) -> Seq<u8> {
    u32_be_bytes(p.len() as u32) + p
}

/// The payload length declared by the first four bytes of a buffered stream.
pub open spec fn declared_len(b: Seq<u8>) -> nat
    recommends
        b.len() >= 4,
{
    u32_of_be(b[0], b[1], b[2], b[3]) as nat
}

/// Encodes one frame, rejecting a payload over the configured maximum so
/// that the peer is never sent a frame it would refuse.
pub fn encode_frame(payload: &Vec<u8>, max_frame_size: u32) -> (r: Result<Vec<u8>, Error>)
    ensures
        match r {
            Ok(f) => payload@.len() <= max_frame_size && f@ == frame_bytes(payload@),
            Err(e) => e == Error::Framing && payload@.len() > max_frame_size,
        },
{
    if payload.len() > max_frame_size as usize {
        return Err(Error::Framing);
    }
    Ok(frame_payload(payload))
}

/// Encodes one frame whose payload is known to fit the length field.
pub fn frame_payload(payload: &Vec<u8>) -> (f: Vec<u8>)
    requires
        payload@.len() <= u32::MAX,
    ensures
        f@ == frame_bytes(payload@),
{
    let mut out: Vec<u8> = Vec::new();
    push_u32_be(&mut out, payload.len() as u32);
    let mut i: usize = 0;
    while i < payload.len()
        invariant
            i <= payload@.len(),
            out@ == u32_be_bytes(payload@.len() as u32) + payload@.take(i as int),
        decreases payload@.len() - i,
    {
        out.push(payload[i]);
        proof {
            assert(payload@.take(i + 1) =~= payload@.take(i as int).push(payload@[i as int]));
            assert(out@ =~= u32_be_bytes(payload@.len() as u32) + payload@.take(i + 1));
        }
        i += 1;
    }
    proof {
        assert(payload@.take(payload@.len() as int) =~= payload@);
    }
    out
}

/// The incremental frame decoder for one connection: it owns the bytes
/// received from the stream and not yet yielded as part of a frame.
pub struct FrameDecoder {
    buf: Vec<u8>,
    max_frame_size: u32,
}

impl FrameDecoder {
    /// The bytes received and not yet yielded.
    pub closed spec fn buffered(&self) -> Seq<u8> {
        self.buf@
    }

    /// The configured bound on a frame's declared payload length.
    pub closed spec fn max_frame(&self) -> u32 {
        self.max_frame_size
    }

    /// A fresh decoder with nothing buffered.
    pub fn new(max_frame_size: u32) -> (d: FrameDecoder)
        ensures
            d.buffered() == Seq::<u8>::empty(),
            d.max_frame() == max_frame_size,
    {
        FrameDecoder { buf: Vec::new(), max_frame_size }
    }

    /// Buffers one delivery from the underlying stream. Only the bytes
    /// matter: delivering a sequence in any fragmentation — down to one byte
    /// at a time — leaves the decoder in the same state.
    pub fn feed(&mut self, chunk: &[u8])
        ensures
            final(self).buffered() == old(self).buffered() + chunk@,
            final(self).max_frame() == old(self).max_frame(),
    {
        let mut i: usize = 0;
        while i < chunk.len()
            invariant
                i <= chunk@.len(),
                self.buf@ == old(self).buf@ + chunk@.take(i as int),
                self.max_frame_size == old(self).max_frame_size,
            decreases chunk@.len() - i,
        {
            self.buf.push(chunk[i]);
            proof {
                assert(chunk@.take(i + 1) =~= chunk@.take(i as int).push(chunk@[i as int]));
                assert(self.buf@ =~= old(self).buf@ + chunk@.take(i + 1));
            }
            i += 1;
        }
        proof {
            assert(chunk@.take(chunk@.len() as int) =~= chunk@);
        }
    }

    /// Yields the next complete frame's payload, if the buffered bytes hold
    /// one. A declared length over the maximum is an error, reported as soon
    /// as the four length bytes are in, whether or not the payload followed.
    pub fn poll_frame(&mut self) -> (r: Result<Option<Vec<u8>>, Error>)
        ensures
            final(self).max_frame() == old(self).max_frame(),
            match r {
                Ok(Some(p)) => {
                    let b = old(self).buffered();
                    &&& b.len() >= 4
                    &&& declared_len(b) <= old(self).max_frame()
                    &&& b.len() >= 4 + declared_len(b)
                    &&& p@ == b.subrange(4, 4 + declared_len(b) as int)
                    &&& final(self).buffered() == b.skip(4 + declared_len(b) as int)
                },
                Ok(None) => {
                    let b = old(self).buffered();
                    &&& final(self).buffered() == b
                    &&& (b.len() < 4 || (declared_len(b) <= old(self).max_frame() && b.len() < 4
                        + declared_len(b)))
                },
                Err(e) => {
                    let b = old(self).buffered();
                    &&& e == Error::Framing
                    &&& b.len() >= 4
                    &&& declared_len(b) > old(self).max_frame()
                    &&& final(self).buffered() == b
                },
            },
    {
        if self.buf.len() < 4 {
            return Ok(None);
        }
        let dl = read_u32_be(self.buf.as_slice(), 0);
        if dl > self.max_frame_size {
            return Err(Error::Framing);
        }
        let dl_us = dl as usize;
        if self.buf.len() - 4 < dl_us {
            return Ok(None);
        }
        let total: usize = 4 + dl_us;
        let mut payload: Vec<u8> = Vec::new();
        let mut i: usize = 4;
        while i < total
            invariant
                4 <= i <= total,
                total == 4 + dl_us,
                total <= self.buf@.len(),
                payload@ == self.buf@.subrange(4, i as int),
                self == old(self),
            decreases total - i,
        {
            payload.push(self.buf[i]);
            proof {
                assert(self.buf@.subrange(4, i + 1) =~= self.buf@.subrange(4, i as int).push(
                    self.buf@[i as int],
                ));
            }
            i += 1;
        }
        let mut rest: Vec<u8> = Vec::new();
        while i < self.buf.len()
            invariant
                total <= i <= self.buf@.len(),
                total == 4 + dl_us,
                rest@ == self.buf@.subrange(total as int, i as int),
                self == old(self),
            decreases self.buf@.len() - i,
        {
            rest.push(self.buf[i]);
            proof {
                assert(self.buf@.subrange(total as int, i + 1) =~= self.buf@.subrange(
                    total as int,
                    i as int,
                ).push(self.buf@[i as int]));
            }
            i += 1;
        }
        proof {
            assert(rest@ =~= self.buf@.skip(total as int));
        }
        self.buf = rest;
        Ok(Some(payload))
    }
}

/// Framing round trip: in a stream that starts with the encoding of a
/// payload `p`, the length bytes declare exactly `p`'s length, the payload
/// bytes are exactly `p`, and the remainder of the stream follows untouched.
/// Together with [`FrameDecoder::feed`], which says delivery fragmentation
/// cannot matter, this pins what [`FrameDecoder::poll_frame`] yields: `p`
/// itself, byte for byte.
pub proof fn lemma_frame_round_trip(p: Seq<u8>, rest: Seq<u8>)
    requires
        p.len() <= u32::MAX,
    ensures
        (frame_bytes(p) + rest).len() == 4 + p.len() + rest.len(),
        declared_len(frame_bytes(p) + rest) == p.len(),
        (frame_bytes(p) + rest).subrange(4, 4 + p.len() as int) == p,
        (frame_bytes(p) + rest).skip(4 + p.len() as int) == rest,
{
    let s = frame_bytes(p) + rest;
    let m = p.len() as u32;
    lemma_u32_be_round_trip(m);
    assert(s[0] == u32_be_bytes(m)[0]);
    assert(s[1] == u32_be_bytes(m)[1]);
    assert(s[2] == u32_be_bytes(m)[2]);
    assert(s[3] == u32_be_bytes(m)[3]);
    assert(s.subrange(4, 4 + p.len() as int) =~= p);
    assert(s.skip(4 + p.len() as int) =~= rest);
}

} // verus!
