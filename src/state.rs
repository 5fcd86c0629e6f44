//! The states of a connection.
use vstd::prelude::*;

verus! {

#[derive(Debug, Clone, Copy, PartialEq, Eq, Structural)]
pub enum State {
    /// Ready for a request head.
    Idle,
    /// The head is read; the body is being read.
    RequestHeadFinished,
    /// The whole request is read; ready for the response head.
    RequestBodyFinished,
    /// The response head is written; the body is being written.
    ResponseHeadFinished,
    /// Closed by an error, a disconnect or the end of the last exchange.
    Closed,
}

} // verus!
