//! The shape of a protocol layer that reads from and writes to a buffer.
use bytes::BytesMut;
use vstd::prelude::*;

verus! {

pub trait SubProtocol {}

pub trait RecvSubProtocol: SubProtocol {
    type RecvEvent;

    fn recv(&mut self, buffer: &mut BytesMut, data: &[u8]) -> Self::RecvEvent;
}

pub trait SendSubProtocol: SubProtocol {
    type SendEvent;

    fn send(&mut self, buffer: &mut BytesMut, data: &[u8]) -> Self::SendEvent;
}

pub trait DuplexSubProtocol: RecvSubProtocol + SendSubProtocol {}

} // verus!
