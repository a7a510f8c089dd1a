#![allow(non_snake_case)]

use rpc_core::dispatch::{dispatch, handle_request, Add, Ping, Pong};
use rpc_core::msg::{Error, Request, Response};
use rpc_core::wire::{decode_response, encode_request};

#[test]
fn handler_Add_adds() {
    assert_eq!(Add(2, 3), 5);
    assert_eq!(Add(-5, 7), 2);
    assert_eq!(Add(0, 0), 0);
}

#[test]
fn handler_Add_wraps() {
    assert_eq!(Add(i32::MAX, 1), i32::MIN);
    assert_eq!(Add(i32::MIN, -1), i32::MAX);
}

#[test]
fn handler_Ping_text() {
    assert_eq!(Ping(), "You have been pinged");
}

#[test]
fn handler_Pong_text() {
    assert_eq!(Pong(), "The pong has been sent");
}

#[test]
fn dispatch_total_same_variant() {
    // Every variant is answered with the response variant of the same tag.
    assert_eq!(
        dispatch(Request::Ping),
        Response::Ping("You have been pinged".to_string())
    );
    assert_eq!(
        dispatch(Request::Pong),
        Response::Pong("The pong has been sent".to_string())
    );
    assert_eq!(
        dispatch(Request::Add { lhs: -10, rhs: 4 }),
        Response::Add(-6)
    );
}

#[test]
fn handle_request_serves_add() {
    let req = encode_request(&Request::Add { lhs: 2, rhs: 3 });
    let out = handle_request(&req).unwrap();
    assert_eq!(decode_response(&out), Ok(Response::Add(5)));
}

#[test]
fn handle_request_serves_ping() {
    let req = encode_request(&Request::Ping);
    let out = handle_request(&req).unwrap();
    assert_eq!(
        decode_response(&out),
        Ok(Response::Ping("You have been pinged".to_string()))
    );
}

#[test]
fn handle_request_rejects_garbage() {
    assert_eq!(handle_request(&[9u8, 9, 9]), Err(Error::Decode));
    assert_eq!(handle_request(&[]), Err(Error::Decode));
}
