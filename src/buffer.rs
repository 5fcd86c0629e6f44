//! The byte buffers of a connection: `bytes::BytesMut` for what is being
//! accumulated and `bytes::Bytes` for what is handed out.
use bytes::{Bytes, BytesMut};
use vstd::prelude::*;

verus! {

#[verifier::external_type_specification]
#[verifier::external_body]
pub struct ExBytesMut(BytesMut);

#[verifier::external_type_specification]
#[verifier::external_body]
pub struct ExBytes(Bytes);

/// The bytes that a `BytesMut` currently holds.
pub uninterp spec fn buffered(b: BytesMut) -> Seq<u8>;

/// The bytes that a `Bytes` holds.
pub uninterp spec fn bytes_of(b: Bytes) -> Seq<u8>;

/// Relies on `BytesMut::new`: a buffer with no bytes in it.
pub assume_specification[ BytesMut::new ]() -> (r: BytesMut)
    ensures
        buffered(r) == Seq::<u8>::empty(),
;

/// Relies on `BytesMut::len`: the number of bytes held.
pub assume_specification[ BytesMut::len ](b: &BytesMut) -> (r: usize)
    ensures
        r as int == buffered(*b).len(),
;

/// Relies on `BytesMut::extend_from_slice`: the bytes are appended.
pub assume_specification[ BytesMut::extend_from_slice ](b: &mut BytesMut, extend: &[u8])
    ensures
        buffered(*final(b)) == buffered(*old(b)) + extend@,
;

/// Relies on `BytesMut::split_to`: the first `at` bytes move to the result,
/// the rest stay; it panics when `at` exceeds the length.
pub assume_specification[ BytesMut::split_to ](b: &mut BytesMut, at: usize) -> (r: BytesMut)
    requires
        at <= buffered(*old(b)).len(),
    ensures
        buffered(r) == buffered(*old(b)).subrange(0, at as int),
        buffered(*final(b)) == buffered(*old(b)).subrange(at as int, buffered(*old(b)).len() as int),
;

/// Relies on `BytesMut::freeze`: the same bytes, now immutable.
pub assume_specification[ BytesMut::freeze ](b: BytesMut) -> (r: Bytes)
    ensures
        bytes_of(r) == buffered(b),
;

/// Relies on `Bytes::new`: an empty `Bytes`.
pub assume_specification[ Bytes::new ]() -> (r: Bytes)
    ensures
        bytes_of(r) == Seq::<u8>::empty(),
;

/// Relies on `Bytes::from(Vec<u8>)`: takes over the vector's bytes.
pub assume_specification[ <Bytes as core::convert::From<Vec<u8>>>::from ](v: Vec<u8>) -> (r: Bytes)
    ensures
        bytes_of(r) == v@,
;

/// Relies on `Bytes`'s `Deref` to `[u8]`: a view of the same bytes.
pub assume_specification[ <Bytes as core::ops::Deref>::deref ](b: &Bytes) -> (r: &[u8])
    ensures
        r@ == bytes_of(*b),
;

} // verus!
