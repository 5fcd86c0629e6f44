//! What goes into a connection and what comes out of it.
use crate::buffer::bytes_of;
use crate::request::RequestError;
use bytes::Bytes;
use vstd::prelude::*;

verus! {

pub type Header = (Bytes, Bytes);

/// Header pairs as sequences of bytes.
pub open spec fn header_bytes(hs: Seq<Header>) -> Seq<(Seq<u8>, Seq<u8>)> {
    hs.map_values(|h: Header| (bytes_of(h.0), bytes_of(h.1)))
}

#[derive(Debug)]
pub struct RequestData {
    pub data: Bytes,
}

#[derive(Debug)]
pub struct ResponseStart {
    pub status: usize,
    pub headers: Vec<Header>,
}

#[derive(Debug)]
pub struct ResponseBody {
    pub body: Bytes,
    pub more_body: bool,
}

#[derive(Debug)]
pub enum Inbound {
    /// Request bytes from the peer.
    RequestData(RequestData),
    /// The transport is gone.
    Disconnect,
    ResponseStart(ResponseStart),
    ResponseBody(ResponseBody),
}

#[derive(Debug)]
pub struct RequestHead {
    pub method: String,
    pub path: String,
    pub headers: Vec<Header>,
}

/// A request head as plain values.
pub struct HeadView {
    pub method: Seq<char>,
    pub path: Seq<char>,
    pub headers: Seq<(Seq<u8>, Seq<u8>)>,
}

impl RequestHead {
    pub open spec fn view(&self) -> HeadView {
        HeadView { method: self.method@, path: self.path@, headers: header_bytes(self.headers@) }
    }
}

#[derive(Debug)]
pub struct RequestBody {
    pub body: Bytes,
    pub more_body: bool,
}

#[derive(Debug)]
pub struct ResponseData {
    pub data: Bytes,
}

#[derive(Debug)]
pub enum Outbound {
    /// More bytes are needed to finish the request head.
    PartialRequest,
    /// The request is malformed; the connection is closed.
    RequestErr(RequestError),
    RequestHead(RequestHead),
    RequestBody(RequestBody),
    /// The response head could not be written; the connection is closed.
    ResponseErr,
    /// The serialized response head.
    ResponseStart(ResponseData),
    /// Response body bytes to send.
    ResponseBody(ResponseData),
    /// The connection is closed; nothing was done.
    Closed,
    /// The input does not fit the current state and was refused.
    OutOfSequence,
}

/// An `Outbound` as plain values.
pub enum OutView {
    PartialRequest,
    RequestErr(RequestError),
    RequestHead(HeadView),
    RequestBody(Seq<u8>, bool),
    ResponseErr,
    ResponseStart(Seq<u8>),
    ResponseBody(Seq<u8>),
    Closed,
    OutOfSequence,
}

impl Outbound {
    /// Whether the request head was read: neither incomplete nor rejected.
    pub fn is_request_head_finished(&self) -> (r: bool)
        ensures
            r == !(self is PartialRequest || self is RequestErr),
    {
        match self {
            Outbound::PartialRequest => false,
            Outbound::RequestErr(_) => false,
            _ => true,
        }
    }

    /// Whether the request was rejected.
    pub fn is_error(&self) -> (r: bool)
        ensures
            r == self is RequestErr,
    {
        match self {
            Outbound::RequestErr(_) => true,
            _ => false,
        }
    }

    pub open spec fn view(&self) -> OutView {
        match self {
            Outbound::PartialRequest => OutView::PartialRequest,
            Outbound::RequestErr(e) => OutView::RequestErr(*e),
            Outbound::RequestHead(h) => OutView::RequestHead(h@),
            Outbound::RequestBody(b) => OutView::RequestBody(bytes_of(b.body), b.more_body),
            Outbound::ResponseErr => OutView::ResponseErr,
            Outbound::ResponseStart(d) => OutView::ResponseStart(bytes_of(d.data)),
            Outbound::ResponseBody(d) => OutView::ResponseBody(bytes_of(d.data)),
            Outbound::Closed => OutView::Closed,
            Outbound::OutOfSequence => OutView::OutOfSequence,
        }
    }
}

} // verus!
