//! The per-connection session: the state machine that pulls frames out of the
//! received bytes, decodes each to a request, dispatches it, encodes the
//! response and hands back the frame to write — strictly one request at a
//! time, in order, with exits for end-of-stream, errors and graceful
//! shutdown. The embedding program owns the socket; it feeds bytes and
//! lifecycle events in and performs the writes and the closes the session
//! asks for. Each session owns its whole state, so nothing that happens on
//! one connection can touch another: sessions share no mutable state.

use vstd::prelude::*;

use crate::dispatch::{dispatch_spec, handle_request, lemma_dispatch_resp_len};
use crate::frame::{
    declared_len, frame_bytes, frame_payload, lemma_frame_round_trip, FrameDecoder,
};
use crate::msg::{Error, Request};
use crate::wire::{lemma_request_round_trip, parse_request, req_bytes, resp_bytes};

verus! {

/// Why a session left its read-dispatch-write loop.
#[derive(Clone, Copy, PartialEq, Eq, Structural, Debug)]
pub enum Close {
    /// Clean closure: peer end-of-stream, or graceful shutdown.
    Clean,
    /// The connection failed and is dropped without a response.
    Failed(Error),
}

/// The lifecycle phase of one connection.
#[derive(Clone, Copy, PartialEq, Eq, Structural, Debug)]
pub enum Phase {
    /// Reading frames and answering them.
    Open,
    /// Done: the socket must be flushed and shut down.
    Closed,
}

/// What the embedding must do after handing the session an event: write
/// these response frames, in order, and then, if `close` says so, flush and
/// shut the socket down. A close is requested on every exit path.
pub struct Step {
    pub responses: Vec<Vec<u8>>,
    pub close: Option<Close>,
}

/// What serving buffered bytes must produce: the encoded response frame of
/// every complete, well-formed request frame, in request order; the bytes of
/// any still-incomplete frame, left buffered; and the error that stops the
/// session, if one does. A response is owed for every frame that precedes the
/// first error.
pub struct DrainSpec {
    pub responses: Seq<Seq<u8>>,
    pub leftover: Seq<u8>,
    pub stop: Option<Error>,
}

/// Serving buffered bytes, one frame at a time.
pub open spec fn drain_spec(s: Seq<u8>, max: u32) -> DrainSpec
    decreases s.len(),
{
    if s.len() < 4 {
        DrainSpec { responses: seq![], leftover: s, stop: None }
    } else if declared_len(s) > max {
        DrainSpec { responses: seq![], leftover: s, stop: Some(Error::Framing) }
    } else if s.len() < 4 + declared_len(s) {
        DrainSpec { responses: seq![], leftover: s, stop: None }
    } else {
        let p = s.subrange(4, 4 + declared_len(s) as int);
        match parse_request(p) {
            Some(req) => {
                let rest = drain_spec(s.skip(4 + declared_len(s) as int), max);
                DrainSpec {
                    responses: seq![frame_bytes(resp_bytes(dispatch_spec(req)))] + rest.responses,
                    leftover: rest.leftover,
                    stop: rest.stop,
                }
            },
            None => DrainSpec { responses: seq![], leftover: s, stop: Some(Error::Decode) },
        }
    }
}

/// One connection's session state.
pub struct Session {
    phase: Phase,
    decoder: FrameDecoder,
}

impl Session {
    /// The session's lifecycle phase.
    pub closed spec fn phase(&self) -> Phase {
        self.phase
    }

    /// The received bytes not yet consumed as frames.
    pub closed spec fn buffered(&self) -> Seq<u8> {
        self.decoder.buffered()
    }

    /// The configured bound on a frame's declared payload length.
    pub closed spec fn max_frame(&self) -> u32 {
        self.decoder.max_frame()
    }

    /// A fresh session for one accepted connection.
    pub fn new(max_frame_size: u32) -> (s: Session)
        ensures
            s.phase() == Phase::Open,
            s.buffered() == Seq::<u8>::empty(),
            s.max_frame() == max_frame_size,
    {
        Session { phase: Phase::Open, decoder: FrameDecoder::new(max_frame_size) }
    }

    /// Feeds one delivery from the stream and serves every request frame it
    /// completes: each is decoded, dispatched and answered in order, and a
    /// framing or decode failure closes the connection with no response for
    /// the offending frame. Only the bytes matter, not the fragmentation
    /// they arrived in.
    pub fn on_bytes(&mut self, chunk: &[u8]) -> (step: Step)
        requires
            old(self).phase() == Phase::Open,
        ensures
            final(self).max_frame() == old(self).max_frame(),
            ({
                let d = drain_spec(old(self).buffered() + chunk@, old(self).max_frame());
                let after = *final(self);
                &&& step.responses.deep_view() == d.responses
                &&& match d.stop {
                    None => step.close is None && after.phase() == Phase::Open && after.buffered()
                        == d.leftover,
                    Some(e) => step.close == Some(Close::Failed(e)) && after.phase()
                        == Phase::Closed,
                }
            }),
    {
        let ghost s0 = old(self).buffered() + chunk@;
        let ghost max = old(self).max_frame();
        self.decoder.feed(chunk);
        let mut responses: Vec<Vec<u8>> = Vec::new();
        proof {
            assert(responses.deep_view() + drain_spec(s0, max).responses =~~= drain_spec(
                s0,
                max,
            ).responses);
        }
        loop
            invariant
                max == old(self).max_frame(),
                s0 == old(self).buffered() + chunk@,
                self.phase == Phase::Open,
                self.decoder.max_frame() == max,
                drain_spec(s0, max).responses == responses.deep_view() + drain_spec(
                    self.decoder.buffered(),
                    max,
                ).responses,
                drain_spec(s0, max).leftover == drain_spec(self.decoder.buffered(), max).leftover,
                drain_spec(s0, max).stop == drain_spec(self.decoder.buffered(), max).stop,
            decreases self.decoder.buffered().len(),
        {
            let ghost b = self.decoder.buffered();
            let ghost db = drain_spec(b, max);
            match self.decoder.poll_frame() {
                Ok(Some(p)) => {
                    match handle_request(p.as_slice()) {
                        Ok(out) => {
                            proof {
                                let req = choose|req: Request| parse_request(p@) == Some(req);
                                lemma_dispatch_resp_len(req);
                                assert(db.responses == seq![
                                    frame_bytes(resp_bytes(dispatch_spec(req))),
                                ] + drain_spec(self.decoder.buffered(), max).responses);
                                assert(db.leftover == drain_spec(
                                    self.decoder.buffered(),
                                    max,
                                ).leftover);
                                assert(db.stop == drain_spec(self.decoder.buffered(), max).stop);
                            }
                            let f = frame_payload(&out);
                            let ghost dv = responses.deep_view();
                            responses.push(f);
                            proof {
                                assert(responses.deep_view() =~~= dv + seq![f@]);
                                assert(dv + db.responses =~~= responses.deep_view() + drain_spec(
                                    self.decoder.buffered(),
                                    max,
                                ).responses);
                            }
                        },
                        Err(_) => {
                            proof {
                                assert(db.stop == Some(Error::Decode));
                                assert(responses.deep_view() + db.responses =~~=
                                responses.deep_view());
                            }
                            self.phase = Phase::Closed;
                            return Step {
                                responses,
                                close: Some(Close::Failed(Error::Decode)),
                            };
                        },
                    }
                },
                Ok(None) => {
                    proof {
                        assert(db.stop is None);
                        assert(db.leftover == b);
                        assert(responses.deep_view() + db.responses =~~= responses.deep_view());
                    }
                    return Step { responses, close: None };
                },
                Err(_) => {
                    proof {
                        assert(db.stop == Some(Error::Framing));
                        assert(responses.deep_view() + db.responses =~~= responses.deep_view());
                    }
                    self.phase = Phase::Closed;
                    return Step { responses, close: Some(Close::Failed(Error::Framing)) };
                },
            }
        }
    }

    /// The peer closed its end: a clean exit, not a failure. The socket is
    /// still flushed and shut down.
    pub fn on_end_of_stream(&mut self) -> (step: Step)
        ensures
            final(self).phase() == Phase::Closed,
            final(self).max_frame() == old(self).max_frame(),
            step.responses@.len() == 0,
            step.close == Some(Close::Clean),
    {
        self.phase = Phase::Closed;
        Step { responses: Vec::new(), close: Some(Close::Clean) }
    }

    /// The stream failed: close with a transport error.
    pub fn on_transport_error(&mut self) -> (step: Step)
        ensures
            final(self).phase() == Phase::Closed,
            final(self).max_frame() == old(self).max_frame(),
            step.responses@.len() == 0,
            step.close == Some(Close::Failed(Error::Transport)),
    {
        self.phase = Phase::Closed;
        Step { responses: Vec::new(), close: Some(Close::Failed(Error::Transport)) }
    }

    /// The shutdown signal fired: abandon further request processing and
    /// close cleanly, whatever phase the session is in. The embedding checks
    /// for shutdown only between requests — never inside `on_bytes` — so a
    /// request already being served when the signal fires still gets its
    /// response written before the close.
    pub fn on_shutdown(&mut self) -> (step: Step)
        ensures
            final(self).phase() == Phase::Closed,
            final(self).max_frame() == old(self).max_frame(),
            step.responses@.len() == 0,
            step.close == Some(Close::Clean),
    {
        self.phase = Phase::Closed;
        Step { responses: Vec::new(), close: Some(Close::Clean) }
    }
}

/// The wire stream of a sequence of requests: one frame per request, in order.
pub open spec fn request_stream(reqs: Seq<Request>) -> Seq<u8>
    decreases reqs.len(),
{
    if reqs.len() == 0 {
        seq![]
    } else {
        frame_bytes(req_bytes(reqs[0])) + request_stream(reqs.drop_first())
    }
}

/// The response frames owed to a sequence of requests, in order.
pub open spec fn response_frames(reqs: Seq<Request>) -> Seq<Seq<u8>>
    decreases reqs.len(),
{
    if reqs.len() == 0 {
        seq![]
    } else {
        seq![frame_bytes(resp_bytes(dispatch_spec(reqs[0])))] + response_frames(reqs.drop_first())
    }
}

/// Sequential ordering: serving the stream of requests `[r1, ..., rn]` — in
/// one delivery or many — yields exactly `[resp(r1), ..., resp(rn)]`, in the
/// same order, with nothing left buffered and no error. No reordering is
/// observable on one connection.
pub proof fn lemma_sequential_ordering(reqs: Seq<Request>, max: u32)
    requires
        forall|i: int| 0 <= i < reqs.len() ==> #[trigger] req_bytes(reqs[i]).len() <= max,
    ensures
        drain_spec(request_stream(reqs), max).responses == response_frames(reqs),
        drain_spec(request_stream(reqs), max).leftover == Seq::<u8>::empty(),
        drain_spec(request_stream(reqs), max).stop is None,
    decreases reqs.len(),
{
    if reqs.len() == 0 {
        assert(request_stream(reqs).len() < 4);
        assert(drain_spec(request_stream(reqs), max).leftover =~= Seq::<u8>::empty());
    } else {
        let r0 = reqs[0];
        assert(req_bytes(reqs[0]).len() <= max);
        let p = req_bytes(r0);
        let rest = request_stream(reqs.drop_first());
        let s = request_stream(reqs);
        assert(s == frame_bytes(p) + rest);
        lemma_frame_round_trip(p, rest);
        lemma_request_round_trip(r0);
        assert(forall|i: int|
            0 <= i < reqs.drop_first().len() ==> #[trigger] req_bytes(
                reqs.drop_first()[i],
            ).len() <= max) by {
            assert(forall|i: int|
                0 <= i < reqs.drop_first().len() ==> reqs.drop_first()[i] == reqs[i + 1]);
        }
        lemma_sequential_ordering(reqs.drop_first(), max);
    }
}

} // verus!
