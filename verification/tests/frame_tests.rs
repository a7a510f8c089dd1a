use rpc_core::frame::{encode_frame, frame_payload, FrameDecoder};
use rpc_core::msg::Error;

#[test]
fn frame_layout() {
    let f = frame_payload(&vec![9u8, 8, 7]);
    assert_eq!(f, vec![0u8, 0, 0, 3, 9, 8, 7]);
}

#[test]
fn frame_round_trip_single_delivery() {
    let payload = vec![1u8, 2, 3, 4, 5];
    let f = encode_frame(&payload, 64).unwrap();
    let mut d = FrameDecoder::new(64);
    d.feed(&f);
    assert_eq!(d.poll_frame(), Ok(Some(payload)));
    assert_eq!(d.poll_frame(), Ok(None));
}

#[test]
fn frame_round_trip_one_byte_at_a_time() {
    // Fragmentation must not matter: deliver the same frame byte by byte.
    let payload = vec![42u8, 0, 255, 7];
    let f = encode_frame(&payload, 16).unwrap();
    let mut d = FrameDecoder::new(16);
    for (i, byte) in f.iter().enumerate() {
        if i + 1 < f.len() {
            assert_eq!(d.poll_frame(), Ok(None));
        }
        d.feed(&[*byte]);
    }
    assert_eq!(d.poll_frame(), Ok(Some(payload)));
    assert_eq!(d.poll_frame(), Ok(None));
}

#[test]
fn frame_empty_payload() {
    let f = encode_frame(&vec![], 8).unwrap();
    assert_eq!(f, vec![0u8, 0, 0, 0]);
    let mut d = FrameDecoder::new(8);
    d.feed(&f);
    assert_eq!(d.poll_frame(), Ok(Some(vec![])));
}

#[test]
fn frame_two_frames_one_delivery() {
    let mut bytes = encode_frame(&vec![1u8], 8).unwrap();
    bytes.extend_from_slice(&encode_frame(&vec![2u8, 3], 8).unwrap());
    let mut d = FrameDecoder::new(8);
    d.feed(&bytes);
    assert_eq!(d.poll_frame(), Ok(Some(vec![1u8])));
    assert_eq!(d.poll_frame(), Ok(Some(vec![2u8, 3])));
    assert_eq!(d.poll_frame(), Ok(None));
}

#[test]
fn frame_oversized_rejected_from_header_alone() {
    // Only the four length bytes arrive, declaring more than the maximum:
    // the error comes at once, with no payload read or buffered for it.
    let mut d = FrameDecoder::new(1024);
    d.feed(&[0xffu8, 0xff, 0xff, 0xff]);
    assert_eq!(d.poll_frame(), Err(Error::Framing));
}

#[test]
fn frame_at_maximum_accepted() {
    let payload = vec![7u8; 16];
    let f = encode_frame(&payload, 16).unwrap();
    let mut d = FrameDecoder::new(16);
    d.feed(&f);
    assert_eq!(d.poll_frame(), Ok(Some(payload)));
}

#[test]
fn frame_just_over_maximum_rejected() {
    let payload = vec![7u8; 17];
    assert_eq!(encode_frame(&payload, 16), Err(Error::Framing));
    let mut d = FrameDecoder::new(16);
    d.feed(&[0u8, 0, 0, 17]);
    assert_eq!(d.poll_frame(), Err(Error::Framing));
}

#[test]
fn frame_incomplete_payload_waits() {
    let mut d = FrameDecoder::new(8);
    d.feed(&[0u8, 0, 0, 2, 5]);
    assert_eq!(d.poll_frame(), Ok(None));
    d.feed(&[6u8]);
    assert_eq!(d.poll_frame(), Ok(Some(vec![5u8, 6])));
}
