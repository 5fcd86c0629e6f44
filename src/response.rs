//! The response head writer: a status line and the header lines, serialized
//! into the send buffer and handed out as one `Bytes`.
use crate::bound::{Header, ResponseData, ResponseStart, header_bytes};
use crate::buffer::{buffered, bytes_of};
use crate::state::State;
use bytes::{Bytes, BytesMut};
use http::status::InvalidStatusCode;
use http::StatusCode;
use vstd::prelude::*;
use vstd::string::StringSliceAdditionalSpecFns;
use vstd::utf8::encode_utf8;

verus! {

#[verifier::external_type_specification]
#[verifier::external_body]
pub struct ExStatusCode(StatusCode);

#[verifier::external_type_specification]
#[verifier::external_body]
pub struct ExInvalidStatusCode(InvalidStatusCode);

/// The number that a `StatusCode` stands for (what `as_u16` returns).
pub uninterp spec fn status_number(c: StatusCode) -> u16;

/// The registered reason phrase of a status code, if it has one.
pub uninterp spec fn canonical_reason_of(code: u16) -> Option<Seq<char>>;

/// Relies on `http::StatusCode::from_u16`: it accepts exactly 100 to 999.
pub assume_specification[ StatusCode::from_u16 ](src: u16) -> (r: Result<StatusCode, InvalidStatusCode>)
    ensures
        r is Ok <==> 100 <= src <= 999,
        r matches Ok(c) ==> status_number(c) == src,
;

/// Relies on `http::StatusCode::canonical_reason`: the phrase registered for
/// the code, if any.
pub assume_specification[ StatusCode::canonical_reason ](c: &StatusCode) -> (r: Option<&'static str>)
    ensures
        r matches Some(s) ==> canonical_reason_of(status_number(*c)) == Some(s@),
        r is None ==> canonical_reason_of(status_number(*c)) is None,
;

#[derive(Debug)]
pub enum ResponseError {
    InvalidStatusCode(InvalidStatusCode),
}

impl From<InvalidStatusCode> for ResponseError {
    fn from(error: InvalidStatusCode) -> (r: Self)
        ensures
            r == ResponseError::InvalidStatusCode(error),
    {
        ResponseError::InvalidStatusCode(error)
    }
}

impl vstd::std_specs::convert::FromSpecImpl<InvalidStatusCode> for ResponseError {
    open spec fn obeys_from_spec() -> bool {
        true
    }

    open spec fn from_spec(error: InvalidStatusCode) -> Self {
        ResponseError::InvalidStatusCode(error)
    }
}

/// The three decimal digits of a status code.
pub open spec fn status_digits(code: u16) -> Seq<u8> {
    seq![(0x30 + code / 100) as u8, (0x30 + (code / 10) % 10) as u8, (0x30 + code % 10) as u8]
}

/// The reason phrase written after the code: the registered one, or nothing.
pub open spec fn reason_bytes(code: u16) -> Seq<u8> {
    match canonical_reason_of(code) {
        Some(r) => encode_utf8(r),
        None => Seq::<u8>::empty(),
    }
}

/// One `name: value` line per header, in order.
pub open spec fn header_lines(hs: Seq<(Seq<u8>, Seq<u8>)>) -> Seq<u8>
    decreases hs.len(),
{
    if hs.len() == 0 {
        Seq::<u8>::empty()
    } else {
        header_lines(hs.drop_last()) + hs.last().0 + ": ".spec_bytes() + hs.last().1 + "\r\n".spec_bytes()
    }
}

/// The serialized response head.
pub open spec fn response_head_bytes(code: u16, hs: Seq<(Seq<u8>, Seq<u8>)>) -> Seq<u8> {
    "HTTP/1.1 ".spec_bytes() + status_digits(code) + " ".spec_bytes() + reason_bytes(code) + "\r\n".spec_bytes()
        + header_lines(hs) + "\r\n".spec_bytes()
}

pub open spec fn is_valid_status(status: usize) -> bool {
    100 <= status <= 999
}

#[derive(Debug)]
pub struct ResponseHead {}

impl ResponseHead {
    /// Writes the head for `status` and `headers` after what `buffer` holds,
    /// and hands all of it out, leaving the buffer empty. A status outside
    /// 100 to 999 is refused and the buffer left as it was.
    pub fn write(&mut self, buffer: &mut BytesMut, status: usize, headers: &Vec<Header>) -> (r: Result<
        Bytes,
        ResponseError,
    >)
        ensures
            r is Ok <==> is_valid_status(status),
            r matches Ok(b) ==> bytes_of(b) == buffered(*old(buffer)) + response_head_bytes(
                status as u16,
                header_bytes(headers@),
            ) && buffered(*final(buffer)) == Seq::<u8>::empty(),
            r is Err ==> buffered(*final(buffer)) == buffered(*old(buffer)),
    {
        let number: u16 = if status <= 999 {
            status as u16
        } else {
            0
        };
        let code = match StatusCode::from_u16(number) {
            Ok(code) => code,
            Err(e) => return Err(ResponseError::from(e)),
        };
        let ghost start = buffered(*buffer);
        buffer.extend_from_slice("HTTP/1.1 ".as_bytes());
        let digits: [u8; 3] = [
            (0x30 + number / 100) as u8,
            (0x30 + (number / 10) % 10) as u8,
            (0x30 + number % 10) as u8,
        ];
        assert(digits@ =~= status_digits(number));
        buffer.extend_from_slice(&digits);
        buffer.extend_from_slice(" ".as_bytes());
        match code.canonical_reason() {
            Some(reason) => buffer.extend_from_slice(reason.as_bytes()),
            None => {},
        }
        buffer.extend_from_slice("\r\n".as_bytes());
        let ghost line = buffered(*buffer);
        assert(line =~= start + ("HTTP/1.1 ".spec_bytes() + status_digits(number) + " ".spec_bytes()
            + reason_bytes(number) + "\r\n".spec_bytes()));
        let ghost hs = header_bytes(headers@);
        let mut i: usize = 0;
        assert(hs.subrange(0, 0) =~= Seq::<(Seq<u8>, Seq<u8>)>::empty());
        while i < headers.len()
            invariant
                0 <= i <= headers@.len(),
                hs == header_bytes(headers@),
                buffered(*buffer) == line + header_lines(hs.subrange(0, i as int)),
            decreases headers@.len() - i,
        {
            let name: &[u8] = &headers[i].0;
            let value: &[u8] = &headers[i].1;
            let ghost before = buffered(*buffer);
            buffer.extend_from_slice(name);
            buffer.extend_from_slice(": ".as_bytes());
            buffer.extend_from_slice(value);
            buffer.extend_from_slice("\r\n".as_bytes());
            let ghost next = hs.subrange(0, i + 1);
            assert(next.drop_last() =~= hs.subrange(0, i as int));
            assert(next.last() == (name@, value@));
            assert(buffered(*buffer) =~= line + header_lines(next));
            i = i + 1;
        }
        assert(hs.subrange(0, i as int) =~= hs);
        buffer.extend_from_slice("\r\n".as_bytes());
        let total = buffer.len();
        let head = buffer.split_to(total).freeze();
        assert(buffered(*buffer) =~= Seq::<u8>::empty());
        assert(bytes_of(head) =~= start + response_head_bytes(number, hs));
        Ok(head)
    }

    /// The head writer as a step of a connection whose request is read:
    /// `ResponseHeadFinished` after a head, `Closed` after an invalid status.
    pub fn step(&mut self, buffer: &mut BytesMut, state: State, inbound: ResponseStart) -> (r: Result<
        (ResponseData, State),
        (ResponseError, State),
    >)
        requires
            state == State::RequestBodyFinished,
        ensures
            r is Ok <==> is_valid_status(inbound.status),
            r matches Ok((data, next)) ==> next == State::ResponseHeadFinished && bytes_of(data.data) == buffered(
                *old(buffer),
            ) + response_head_bytes(inbound.status as u16, header_bytes(inbound.headers@)) && buffered(
                *final(buffer),
            ) == Seq::<u8>::empty(),
            r matches Err((_, next)) ==> next == State::Closed && buffered(*final(buffer)) == buffered(*old(buffer)),
    {
        match self.write(buffer, inbound.status, &inbound.headers) {
            Ok(data) => Ok((ResponseData { data }, State::ResponseHeadFinished)),
            Err(e) => Err((e, State::Closed)),
        }
    }
}

} // verus!
