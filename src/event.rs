//! The application messages that the connection exchanges, as seen through
//! accessors that the host runtime implements on its own objects.
use crate::errors::AsgiSpecError;
use crate::types::PyHeader;
use bytes::Bytes;
use vstd::prelude::*;

verus! {

/// A chunk of request body for the application.
pub struct AsgiReceiveRequest {
    pub body: Bytes,
    pub more_body: bool,
}

pub enum AsgiReceive {
    Request(AsgiReceiveRequest),
    Disconnect,
}

/// The fields of a `http.response.start` message.
pub trait ASGISendResponseStart: Sized {
    fn get_status(&self) -> Result<usize, AsgiSpecError>;

    fn get_headers(&self) -> Vec<PyHeader<'_>>;

    fn get_trailers(&self) -> bool;
}

/// The fields of a `http.response.body` message.
pub trait ASGISendResponseBody: Sized {
    fn get_body(&self) -> &[u8];

    fn get_more_body(&self) -> bool;
}

} // verus!
