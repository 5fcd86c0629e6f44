use ruvicorn_core::errors::AsgiSpecError;
use ruvicorn_core::headers::{
    validate_headers, ConnectionInfo, HeaderError, HeaderName, KeepAlive,
};
use ruvicorn_core::payload::PayloadType;
use ruvicorn_core::text::{eq_ignore_case_at, parse_u64_at, trim_range};

fn pairs(hs: &[(&str, &[u8])]) -> Vec<(Vec<u8>, Vec<u8>)> {
    hs.iter().map(|(n, v)| (n.as_bytes().to_vec(), v.to_vec())).collect()
}

fn check(hs: &[(&str, &[u8])]) -> Result<ConnectionInfo, HeaderError> {
    validate_headers(&pairs(hs))
}

#[test]
fn no_headers_default_framing() {
    let info = check(&[]).unwrap();
    assert!(matches!(info.keep_alive, KeepAlive::Unspecified));
    assert!(info.keep_alive.should_keep_alive());
    assert!(matches!(info.payload_type, PayloadType::Empty(_)));
}

#[test]
fn connection_values_decide_keep_alive() {
    assert!(!check(&[("connection", b"  CLOSE ")]).unwrap().keep_alive.should_keep_alive());
    assert!(check(&[("Connection", b"keep-alive")]).unwrap().keep_alive.should_keep_alive());
    assert!(matches!(check(&[("Connection", b"upgrade")]).unwrap().keep_alive, KeepAlive::Unspecified));
    assert!(matches!(
        check(&[("Connection", b"close"), ("Connection", b"keep-alive")]).unwrap().keep_alive,
        KeepAlive::KeepAlive
    ));
}

#[test]
fn content_length_is_parsed() {
    let info = check(&[("content-length", b" 42 ")]).unwrap();
    assert!(matches!(info.payload_type, PayloadType::LengthedPayload(p) if p.remaining == 42));
    let info = check(&[("Content-Length", b"+7")]).unwrap();
    assert!(matches!(info.payload_type, PayloadType::LengthedPayload(p) if p.remaining == 7));
    let info = check(&[("Content-Length", b"0")]).unwrap();
    assert!(matches!(info.payload_type, PayloadType::Empty(_)));
    let info = check(&[("Content-Length", b"18446744073709551615")]).unwrap();
    assert!(matches!(info.payload_type, PayloadType::LengthedPayload(p) if p.remaining == u64::MAX));
}

#[test]
fn bad_content_lengths_are_rejected() {
    for v in [&b""[..], b"-1", b"1a", b"+", b"18446744073709551616", b"1 2"] {
        assert!(matches!(
            check(&[("Content-Length", v)]),
            Err(HeaderError::InvalidValue(HeaderName::ContentLength))
        ));
    }
}

#[test]
fn duplicate_content_length_is_rejected() {
    assert!(matches!(
        check(&[("Content-Length", b"1"), ("Host", b"h"), ("content-length", b"1")]),
        Err(HeaderError::Duplicate(HeaderName::ContentLength))
    ));
}

#[test]
fn length_and_chunked_are_rejected_in_either_order() {
    assert!(matches!(
        check(&[("Content-Length", b"3"), ("Transfer-Encoding", b"chunked")]),
        Err(HeaderError::InvalidValue(HeaderName::TransferEncoding))
    ));
    assert!(matches!(
        check(&[("Transfer-Encoding", b"chunked"), ("Content-Length", b"3")]),
        Err(HeaderError::InvalidValue(HeaderName::ContentLength))
    ));
}

#[test]
fn zero_length_then_chunked_is_chunked() {
    let info = check(&[("Content-Length", b"0"), ("Transfer-Encoding", b"chunked")]).unwrap();
    assert!(matches!(info.payload_type, PayloadType::ChunkedPayload(_)));
}

#[test]
fn transfer_coding_lists() {
    let info = check(&[("Transfer-Encoding", b"identity , Chunked")]).unwrap();
    assert!(matches!(info.payload_type, PayloadType::ChunkedPayload(_)));
    let info = check(&[("Transfer-Encoding", b"identity")]).unwrap();
    assert!(matches!(info.payload_type, PayloadType::Empty(_)));
    for v in [&b"gzip"[..], b"chunked,", b"", b"chunked, gzip"] {
        assert!(matches!(
            check(&[("Transfer-Encoding", v)]),
            Err(HeaderError::InvalidValue(HeaderName::TransferEncoding))
        ));
    }
    assert!(matches!(
        check(&[("Transfer-Encoding", b"identity"), ("transfer-encoding", b"identity")]),
        Err(HeaderError::Duplicate(HeaderName::TransferEncoding))
    ));
}

#[test]
fn non_utf8_value_is_rejected() {
    assert!(matches!(
        check(&[("X-Thing", &[0x66, 0xff, 0x66])]),
        Err(HeaderError::InvalidValue(HeaderName::Value))
    ));
    assert!(check(&[("X-Thing", "caf\u{e9}".as_bytes())]).is_ok());
}

#[test]
fn header_names_have_their_text() {
    assert_eq!(HeaderName::ContentLength.as_str(), "Content-Length");
    assert_eq!(HeaderName::TransferEncoding.as_str(), "Transfer-Encoding");
    assert_eq!(HeaderName::Value.as_str(), ":value:");
}

#[test]
fn text_helpers() {
    let s = b"  \tab c \r\n";
    assert_eq!(trim_range(s, 0, s.len()), (3, 7));
    assert_eq!(trim_range(b"   ", 0, 3).0, trim_range(b"   ", 0, 3).1);
    assert!(eq_ignore_case_at(b"xCHUNKEDx", 1, 8, b"chunked"));
    assert!(!eq_ignore_case_at(b"chunke", 0, 6, b"chunked"));
    assert_eq!(parse_u64_at(b"[123]", 1, 4), Some(123));
    assert_eq!(parse_u64_at(b"", 0, 0), None);
}

#[test]
fn asgi_spec_error_message() {
    assert_eq!(AsgiSpecError {}.message(), "AsgiSpecError");
}
