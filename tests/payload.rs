use bytes::{Bytes, BytesMut};
use ruvicorn_core::payload::{
    ChunkedPayload, EmptyPayload, LengthedPayload, PayloadStepResult, PayloadType, WebSocketUpgrade,
};

#[test]
fn test_empty_payload() {
    let mut payload = EmptyPayload {};
    let mut buffer = BytesMut::new();

    let result = payload.step(&mut buffer);

    match result {
        PayloadStepResult::Finished(body) => assert_eq!(body, Bytes::new()),
        _ => panic!("an empty payload finishes at once"),
    }
    assert!(buffer.is_empty());
}

#[test]
fn test_lengthed_payload() {
    let size = 4;
    let mut payload = LengthedPayload { remaining: size };
    let mut buffer = BytesMut::new();
    buffer.extend_from_slice(b"data");

    match payload.step(&mut buffer) {
        PayloadStepResult::Finished(body) => assert_eq!(body, Bytes::from_static(b"data")),
        _ => panic!("expected the whole body"),
    }
    assert_eq!(payload.remaining, 0);
    assert!(buffer.is_empty());
}

#[test]
fn test_lengthed_payload_with_not_enough_data() {
    let size = 8;
    let mut payload = LengthedPayload { remaining: size };
    let mut buffer = BytesMut::new();
    buffer.extend_from_slice(b"data");

    match payload.step(&mut buffer) {
        PayloadStepResult::Partial(body) => assert_eq!(body, Bytes::from_static(b"data")),
        _ => panic!("expected part of the body"),
    }
    assert_eq!(payload.remaining, 4);
    assert!(buffer.is_empty());
}

#[test]
fn test_lengthed_payload_with_too_much_data() {
    let size = 4;
    let mut payload = LengthedPayload { remaining: size };
    let mut buffer = BytesMut::new();
    buffer.extend_from_slice(b"testdata");

    assert!(matches!(payload.step(&mut buffer), PayloadStepResult::Overrun));
    assert_eq!(&buffer[..], b"testdata");
}

#[test]
fn test_lengthed_body_precise_size() {
    let mut payload = LengthedPayload::new(12);
    let mut buffer = BytesMut::new();
    buffer.extend_from_slice(b"Hello World!");

    let result = payload.step(&mut buffer);
    assert!(matches!(result, PayloadStepResult::Finished(_)));
    if let PayloadStepResult::Finished(data) = result {
        assert_eq!(data, Bytes::from_static(b"Hello World!"))
    }
}

#[test]
fn test_lengthed_body_partial() {
    let mut payload = LengthedPayload::new(15);
    let mut buffer = BytesMut::new();
    buffer.extend_from_slice(b"Hello World!");

    assert!(matches!(payload.step(&mut buffer), PayloadStepResult::Partial(_)));
}

#[test]
fn test_lengthed_body_too_long() {
    let mut payload = LengthedPayload::new(10);
    let mut buffer = BytesMut::new();
    buffer.extend_from_slice(b"Hello World!");

    assert!(matches!(payload.step(&mut buffer), PayloadStepResult::Overrun));
}

#[test]
fn lengthed_body_in_pieces_concatenates_to_the_declared_bytes() {
    let body: &[u8] = b"0123456789";
    let mut payload = PayloadType::new_lengthed(body.len() as u64);
    let mut buffer = BytesMut::new();
    let mut got = Vec::new();
    let pieces: [&[u8]; 4] = [&body[..1], &body[1..1], &body[1..7], &body[7..]];
    for (i, piece) in pieces.iter().enumerate() {
        buffer.extend_from_slice(piece);
        match payload.step(&mut buffer) {
            PayloadStepResult::Partial(b) => {
                assert!(i < 3);
                got.extend_from_slice(&b);
            }
            PayloadStepResult::Finished(b) => {
                assert_eq!(i, 3);
                got.extend_from_slice(&b);
            }
            _ => panic!("unexpected decoder result"),
        }
    }
    assert_eq!(got, body);
    assert!(matches!(payload, PayloadType::LengthedPayload(p) if p.remaining == 0));
}

#[test]
fn zero_length_body_finishes_empty() {
    let mut payload = PayloadType::new_lengthed(0);
    let mut buffer = BytesMut::new();
    assert!(matches!(payload.step(&mut buffer), PayloadStepResult::Finished(b) if b.is_empty()));
}

#[test]
fn empty_payload_leaves_following_bytes() {
    let mut payload = PayloadType::new_none();
    let mut buffer = BytesMut::new();
    buffer.extend_from_slice(b"GET /next");
    assert!(matches!(payload.step(&mut buffer), PayloadStepResult::Finished(b) if b.is_empty()));
    assert_eq!(&buffer[..], b"GET /next");
}

#[test]
fn unsupported_framings_fail_closed() {
    let mut buffer = BytesMut::new();
    buffer.extend_from_slice(b"5\r\nhello\r\n");
    assert!(matches!(PayloadType::new_chunked().step(&mut buffer), PayloadStepResult::Unsupported));
    assert!(matches!(PayloadType::new_websocket_upgrade().step(&mut buffer), PayloadStepResult::Unsupported));
    assert!(matches!(ChunkedPayload {}.step(&mut buffer), PayloadStepResult::Unsupported));
    assert!(matches!(WebSocketUpgrade {}.step(&mut buffer), PayloadStepResult::Unsupported));
    assert_eq!(buffer.len(), 10);
}
