//! Faithea: the protocol core of a small asynchronous HTTP framework.
//!
//! The crate holds the parts of the framework that decide things: WebSocket
//! frame decoding and message reassembly, frame encoding, route matching,
//! request-head parsing, multipart helpers and value conversions. Sockets,
//! tasks and channels live with the caller.

pub mod buffer;
pub mod convert;
pub mod data;
pub mod error;
pub mod handler;
pub mod multipart;
pub mod request;
pub mod response;
pub mod route;
pub mod text;
pub mod util;
pub mod websocket;
pub mod ws_state;
