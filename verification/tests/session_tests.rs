use rpc_core::frame::{encode_frame, FrameDecoder};
use rpc_core::lifecycle::{ConnIdAllocator, ShutdownSignal};
use rpc_core::msg::{Error, Request, Response};
use rpc_core::session::{Close, Session};
use rpc_core::wire::{decode_response, encode_request};

const MAX: u32 = 1024;

fn framed_request(req: &Request) -> Vec<u8> {
    encode_frame(&encode_request(req), MAX).unwrap()
}

fn decode_response_frame(frame: &[u8]) -> Response {
    let mut d = FrameDecoder::new(MAX);
    d.feed(frame);
    let payload = d.poll_frame().unwrap().expect("a complete frame");
    assert_eq!(d.poll_frame(), Ok(None), "nothing after the frame");
    decode_response(&payload).unwrap()
}

#[test]
fn sequential_ordering_three_requests() {
    // Requests [r1, r2, r3] on one connection are answered by
    // [resp(r1), resp(r2), resp(r3)], in that order.
    let mut s = Session::new(MAX);
    let mut bytes = framed_request(&Request::Add { lhs: 1, rhs: 2 });
    bytes.extend_from_slice(&framed_request(&Request::Ping));
    bytes.extend_from_slice(&framed_request(&Request::Add { lhs: -4, rhs: 4 }));
    let step = s.on_bytes(&bytes);
    assert_eq!(step.close, None);
    assert_eq!(step.responses.len(), 3);
    assert_eq!(decode_response_frame(&step.responses[0]), Response::Add(3));
    assert_eq!(
        decode_response_frame(&step.responses[1]),
        Response::Ping("You have been pinged".to_string())
    );
    assert_eq!(decode_response_frame(&step.responses[2]), Response::Add(0));
}

#[test]
fn example_scenario_add_two_three() {
    // The wire example: Add{lhs: 2, rhs: 3} goes out, integer 5 comes back.
    let mut server = Session::new(MAX);
    let step = server.on_bytes(&framed_request(&Request::Add { lhs: 2, rhs: 3 }));
    assert_eq!(step.close, None);
    assert_eq!(step.responses.len(), 1);
    assert_eq!(decode_response_frame(&step.responses[0]), Response::Add(5));
}

#[test]
fn fragmented_delivery_same_responses() {
    // Byte-by-byte delivery yields the same single response.
    let mut s = Session::new(MAX);
    let bytes = framed_request(&Request::Pong);
    let mut responses: Vec<Vec<u8>> = Vec::new();
    for byte in &bytes {
        let step = s.on_bytes(&[*byte]);
        assert_eq!(step.close, None);
        responses.extend(step.responses);
    }
    assert_eq!(responses.len(), 1);
    assert_eq!(
        decode_response_frame(&responses[0]),
        Response::Pong("The pong has been sent".to_string())
    );
}

#[test]
fn decode_failure_closes_without_response() {
    let mut s = Session::new(MAX);
    let garbage_frame = encode_frame(&vec![9u8, 9, 9], MAX).unwrap();
    let step = s.on_bytes(&garbage_frame);
    assert_eq!(step.responses.len(), 0);
    assert_eq!(step.close, Some(Close::Failed(Error::Decode)));
}

#[test]
fn oversized_frame_closes_with_framing_error() {
    let mut s = Session::new(4);
    let step = s.on_bytes(&[0u8, 0, 0, 5]);
    assert_eq!(step.responses.len(), 0);
    assert_eq!(step.close, Some(Close::Failed(Error::Framing)));
}

#[test]
fn responses_before_bad_frame_still_sent() {
    // The frame before the failure is still answered; the bad one is not.
    let mut s = Session::new(MAX);
    let mut bytes = framed_request(&Request::Ping);
    bytes.extend_from_slice(&encode_frame(&vec![77u8], MAX).unwrap());
    let step = s.on_bytes(&bytes);
    assert_eq!(step.responses.len(), 1);
    assert_eq!(
        decode_response_frame(&step.responses[0]),
        Response::Ping("You have been pinged".to_string())
    );
    assert_eq!(step.close, Some(Close::Failed(Error::Decode)));
}

#[test]
fn end_of_stream_closes_cleanly() {
    let mut s = Session::new(MAX);
    let step = s.on_end_of_stream();
    assert_eq!(step.responses.len(), 0);
    assert_eq!(step.close, Some(Close::Clean));
}

#[test]
fn transport_error_closes_failed() {
    let mut s = Session::new(MAX);
    let step = s.on_transport_error();
    assert_eq!(step.close, Some(Close::Failed(Error::Transport)));
}

#[test]
fn shutdown_closes_all_idle_sessions() {
    // Firing the signal closes every idle session; each asks for a clean
    // socket shutdown.
    let mut signal = ShutdownSignal::new();
    assert!(!signal.observed());
    let mut sessions: Vec<Session> = (0..8).map(|_| Session::new(MAX)).collect();
    signal.fire();
    assert!(signal.observed());
    signal.fire();
    assert!(signal.observed(), "firing twice changes nothing");
    for s in sessions.iter_mut() {
        let step = s.on_shutdown();
        assert_eq!(step.responses.len(), 0);
        assert_eq!(step.close, Some(Close::Clean));
    }
}

#[test]
fn shutdown_after_response_written() {
    // A request served before the signal is observed keeps its response.
    let mut s = Session::new(MAX);
    let step = s.on_bytes(&framed_request(&Request::Add { lhs: 6, rhs: 1 }));
    assert_eq!(step.responses.len(), 1);
    assert_eq!(decode_response_frame(&step.responses[0]), Response::Add(7));
    let step = s.on_shutdown();
    assert_eq!(step.close, Some(Close::Clean));
}

#[test]
fn isolation_failure_on_one_connection_leaves_another_untouched() {
    // A decode error on connection A never affects connection B's exchange.
    let mut a = Session::new(MAX);
    let mut b = Session::new(MAX);
    let step_b1 = b.on_bytes(&framed_request(&Request::Add { lhs: 10, rhs: 20 }));
    let step_a = a.on_bytes(&encode_frame(&vec![200u8], MAX).unwrap());
    assert_eq!(step_a.close, Some(Close::Failed(Error::Decode)));
    let step_b2 = b.on_bytes(&framed_request(&Request::Ping));
    assert_eq!(step_b1.close, None);
    assert_eq!(step_b2.close, None);
    assert_eq!(decode_response_frame(&step_b1.responses[0]), Response::Add(30));
    assert_eq!(
        decode_response_frame(&step_b2.responses[0]),
        Response::Ping("You have been pinged".to_string())
    );
}

#[test]
fn connection_ids_monotonic() {
    let mut ids = ConnIdAllocator::new();
    let a = ids.fresh_id();
    let b = ids.fresh_id();
    let c = ids.fresh_id();
    assert_eq!((a, b, c), (1, 2, 3));
}
