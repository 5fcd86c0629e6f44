//! Header pairs, owned and borrowed.
use bytes::Bytes;
use vstd::prelude::*;

verus! {

/// A header owned as `Bytes`.
pub type RsHeader = (Bytes, Bytes);

/// A header borrowed from the application's message.
pub type PyHeader<'t> = (&'t [u8], &'t [u8]);

} // verus!
