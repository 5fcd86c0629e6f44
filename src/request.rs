//! The request head parser: `httparse` tokenizes the head, the header
//! validator decides its framing.
use crate::bound::{Header, HeadView, RequestData, RequestHead, header_bytes};
use crate::buffer::{buffered, bytes_of};
use crate::headers::{ConnectionInfo, HeaderError, header_seqs, validate, validate_headers};
use crate::state::State;
use bytes::{Bytes, BytesMut};
use vstd::prelude::*;

verus! {

/// The most headers that a request may carry.
pub const MAX_HEADERS: usize = 96;

#[derive(Debug, Clone, Copy, PartialEq, Eq, Structural)]
pub enum RequestError {
    /// The request line or the header block is malformed, or holds more
    /// than `MAX_HEADERS` headers.
    InvalidRequest,
    InvalidHeader(HeaderError),
    /// The head is not complete yet.
    PartialRequest,
    /// More body bytes arrived than `Content-Length` declared.
    BodyOverrun,
    /// The body is framed in a way that is not decoded here.
    UnsupportedPayload,
}

impl From<HeaderError> for RequestError {
    fn from(error: HeaderError) -> (r: Self)
        ensures
            r == RequestError::InvalidHeader(error),
    {
        RequestError::InvalidHeader(error)
    }
}

impl vstd::std_specs::convert::FromSpecImpl<HeaderError> for RequestError {
    open spec fn obeys_from_spec() -> bool {
        true
    }

    open spec fn from_spec(error: HeaderError) -> Self {
        RequestError::InvalidHeader(error)
    }
}

/// What the tokenizer made of a buffer, as owned values.
pub enum HeadScan {
    Partial,
    Invalid,
    Complete { method: Option<String>, path: Option<String>, headers: Vec<(Vec<u8>, Vec<u8>)>, len: usize },
}

pub enum ScanView {
    Partial,
    Invalid,
    Complete {
        method: Option<Seq<char>>,
        path: Option<Seq<char>>,
        headers: Seq<(Seq<u8>, Seq<u8>)>,
        len: nat,
    },
}

pub open spec fn string_view(s: Option<String>) -> Option<Seq<char>> {
    match s {
        Some(s) => Some(s@),
        None => None,
    }
}

impl HeadScan {
    pub open spec fn view(&self) -> ScanView {
        match self {
            HeadScan::Partial => ScanView::Partial,
            HeadScan::Invalid => ScanView::Invalid,
            HeadScan::Complete { method, path, headers, len } => ScanView::Complete {
                method: string_view(*method),
                path: string_view(*path),
                headers: header_seqs(headers@),
                len: *len as nat,
            },
        }
    }
}

/// What `httparse::Request::parse` makes of `buf` with `max_headers`
/// header slots.
pub uninterp spec fn request_scan(buf: Seq<u8>, max_headers: nat) -> ScanView;

/// Relies on `httparse::Request::parse`: its outcome depends on the bytes and
/// the number of header slots alone; a complete head spans at most the
/// buffer and fills at most the slots.
#[verifier::external_body]
fn scan_request(buf: &BytesMut, max_headers: usize) -> (r: HeadScan)
    ensures
        r@ == request_scan(buffered(*buf), max_headers as nat),
        r matches HeadScan::Complete { headers, len, .. } ==> len <= buffered(*buf).len() && headers@.len()
            <= max_headers,
{
    let mut slots = vec![httparse::EMPTY_HEADER; max_headers];
    let mut req = httparse::Request::new(&mut slots);
    match req.parse(buf) {
        Ok(httparse::Status::Complete(len)) => HeadScan::Complete {
            method: req.method.map(String::from),
            path: req.path.map(String::from),
            headers: req.headers.iter().map(|h| (h.name.as_bytes().to_vec(), h.value.to_vec())).collect(),
            len,
        },
        Ok(httparse::Status::Partial) => HeadScan::Partial,
        Err(_) => HeadScan::Invalid,
    }
}

/// The headers that the tokenizer found, when it found a complete head.
pub open spec fn scanned_headers(s: ScanView) -> Seq<(Seq<u8>, Seq<u8>)> {
    match s {
        ScanView::Complete { headers, .. } => headers,
        _ => Seq::<(Seq<u8>, Seq<u8>)>::empty(),
    }
}

/// What parsing the head at the start of `buf` gives: the head, its framing
/// and its length in bytes, or why there is none.
pub open spec fn head_outcome(buf: Seq<u8>) -> Result<(HeadView, ConnectionInfo, nat), RequestError> {
    match request_scan(buf, MAX_HEADERS as nat) {
        ScanView::Partial => Err(RequestError::PartialRequest),
        ScanView::Invalid => Err(RequestError::InvalidRequest),
        ScanView::Complete { method, path, headers, len } => {
            if headers.len() > MAX_HEADERS {
                Err(RequestError::InvalidRequest)
            } else if method.is_some() && path.is_some() {
                match validate(headers) {
                    Ok(info) => Ok(
                        (HeadView { method: method.unwrap(), path: path.unwrap(), headers }, info, len),
                    ),
                    Err(e) => Err(RequestError::InvalidHeader(e)),
                }
            } else {
                Err(RequestError::InvalidRequest)
            }
        },
    }
}

/// Moves the header pairs into `Bytes`, in order.
fn into_header_bytes(mut pairs: Vec<(Vec<u8>, Vec<u8>)>) -> (r: Vec<Header>)
    ensures
        header_bytes(r@) == header_seqs(pairs@),
{
    let ghost all = header_seqs(pairs@);
    let mut out: Vec<Header> = Vec::new();
    while pairs.len() > 0
        invariant
            header_bytes(out@) + header_seqs(pairs@) == all,
        decreases pairs@.len(),
    {
        let ghost before = pairs@;
        let (name, value) = pairs.remove(0);
        let ghost old_out = out@;
        out.push((Bytes::from(name), Bytes::from(value)));
        assert(header_bytes(out@) =~= header_bytes(old_out).push((name@, value@)));
        assert(header_seqs(before) =~= seq![(name@, value@)] + header_seqs(pairs@));
        assert(header_bytes(out@) + header_seqs(pairs@) =~= header_bytes(old_out) + header_seqs(before));
    }
    assert(header_seqs(pairs@) =~= Seq::<(Seq<u8>, Seq<u8>)>::empty());
    assert(header_bytes(out@) =~= header_bytes(out@) + header_seqs(pairs@));
    out
}

#[derive(Debug)]
pub struct Request {}

impl Request {
    /// Parses the head at the start of `buffer` without consuming it.
    pub fn parse(&mut self, buffer: &BytesMut) -> (r: Result<(RequestHead, ConnectionInfo, usize), RequestError>)
        ensures
            match r {
                Ok((head, info, len)) => head_outcome(buffered(*buffer)) == Ok::<
                    (HeadView, ConnectionInfo, nat),
                    RequestError,
                >((head@, info, len as nat)) && len <= buffered(*buffer).len(),
                Err(e) => head_outcome(buffered(*buffer)) == Err::<(HeadView, ConnectionInfo, nat), RequestError>(e),
            },
    {
        match scan_request(buffer, MAX_HEADERS) {
            HeadScan::Partial => Err(RequestError::PartialRequest),
            HeadScan::Invalid => Err(RequestError::InvalidRequest),
            HeadScan::Complete { method, path, headers, len } => {
                match (method, path) {
                    (Some(method), Some(path)) => {
                        match validate_headers(&headers) {
                            Ok(info) => {
                                let head = RequestHead { method, path, headers: into_header_bytes(headers) };
                                Ok((head, info, len))
                            },
                            Err(e) => Err(RequestError::from(e)),
                        }
                    },
                    _ => Err(RequestError::InvalidRequest),
                }
            },
        }
    }

    /// For a connection in `Idle`: appends `inbound` to `buffer` and parses
    /// the head there. The result is the head and its framing, or the error
    /// and the state that follows it (`Idle` while the head is incomplete,
    /// `Closed` otherwise).
    pub fn step(&mut self, buffer: &mut BytesMut, state: State, inbound: RequestData) -> (r: Result<
        (RequestHead, State, ConnectionInfo),
        (RequestError, State),
    >)
        requires
            state == State::Idle,
        ensures
            buffered(*final(buffer)) == buffered(*old(buffer)) + bytes_of(inbound.data),
            match r {
                Ok((head, next, info)) => next == State::RequestHeadFinished && head_outcome(
                    buffered(*final(buffer)),
                ) is Ok && head_outcome(buffered(*final(buffer))).unwrap().0 == head@ && head_outcome(
                    buffered(*final(buffer)),
                ).unwrap().1 == info,
                Err((e, next)) => head_outcome(buffered(*final(buffer))) == Err::<
                    (HeadView, ConnectionInfo, nat),
                    RequestError,
                >(e) && next == (if e == RequestError::PartialRequest {
                    State::Idle
                } else {
                    State::Closed
                }),
            },
    {
        buffer.extend_from_slice(&inbound.data);
        match self.parse(buffer) {
            Ok((head, info, _)) => Ok((head, State::RequestHeadFinished, info)),
            Err(RequestError::PartialRequest) => Err((RequestError::PartialRequest, State::Idle)),
            Err(e) => Err((e, State::Closed)),
        }
    }
}

} // verus!
