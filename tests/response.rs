use bytes::{Bytes, BytesMut};
use ruvicorn_core::bound::ResponseStart;
use ruvicorn_core::response::{ResponseError, ResponseHead};
use ruvicorn_core::state::State;

fn header(name: &'static [u8], value: &'static [u8]) -> (Bytes, Bytes) {
    (Bytes::from_static(name), Bytes::from_static(value))
}

#[test]
fn response_test_response_head() {
    let mut response = ResponseHead {};
    let mut buffer = BytesMut::new();
    let state = State::RequestBodyFinished;
    let inbound = ResponseStart { status: 200, headers: vec![header(b"Name", b"Value"), header(b"Name2", b"Value2")] };

    let (data, state) = response.step(&mut buffer, state, inbound).unwrap();

    assert!(matches!(state, State::ResponseHeadFinished));
    assert_eq!(data.data, Bytes::from_static(b"HTTP/1.1 200 OK\r\nName: Value\r\nName2: Value2\r\n\r\n"));
}

#[test]
fn test_response_head_invalid_status_code() {
    let mut response = ResponseHead {};
    let mut buffer = BytesMut::new();
    let state = State::RequestBodyFinished;
    let inbound = ResponseStart { status: 1001, headers: vec![header(b"Name", b"Value"), header(b"Name2", b"Value2")] };

    let result = response.step(&mut buffer, state, inbound);

    assert!(matches!(result, Err(e) if
        matches!(e.0, ResponseError::InvalidStatusCode(_)) && matches!(e.1, State::Closed)))
}

#[test]
fn test_response_head_with_no_canonical_reason() {
    let mut response = ResponseHead {};
    let mut buffer = BytesMut::new();
    let state = State::RequestBodyFinished;
    let inbound = ResponseStart { status: 999, headers: vec![header(b"Name", b"Value"), header(b"Name2", b"Value2")] };

    let (data, state) = response.step(&mut buffer, state, inbound).unwrap();

    assert!(matches!(state, State::ResponseHeadFinished));
    assert_eq!(data.data, Bytes::from_static(b"HTTP/1.1 999 \r\nName: Value\r\nName2: Value2\r\n\r\n"));
}

#[test]
fn response_head_clears_the_send_buffer() {
    let mut response = ResponseHead {};
    let mut buffer = BytesMut::new();
    let head = response.write(&mut buffer, 404, &vec![]).unwrap();
    assert_eq!(head, Bytes::from_static(b"HTTP/1.1 404 Not Found\r\n\r\n"));
    assert!(buffer.is_empty());
}

#[test]
fn status_bounds_are_checked() {
    let mut response = ResponseHead {};
    let mut buffer = BytesMut::new();
    assert!(response.write(&mut buffer, 99, &vec![]).is_err());
    assert!(response.write(&mut buffer, 70000, &vec![]).is_err());
    assert!(buffer.is_empty());
    let head = response.write(&mut buffer, 100, &vec![header(b"A", b"b")]).unwrap();
    assert_eq!(head, Bytes::from_static(b"HTTP/1.1 100 Continue\r\nA: b\r\n\r\n"));
}
