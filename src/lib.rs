//! Connection-level HTTP/1.1 engine: incremental request-head parsing,
//! header-driven framing, a streaming body decoder, keep-alive decisions
//! and response-head serialization, all behind one state machine.
pub mod buffer;
pub mod text;
pub mod payload;
pub mod headers;
pub mod state;
pub mod bound;
pub mod request;
pub mod response;
pub mod conn;
pub mod errors;
pub mod event;
pub mod subproto;
pub mod types;
