//! Native-messaging bridge between a browser extension and a local download
//! manager service.
//!
//! The library covers the pieces that carry the protocol itself: the
//! length-prefixed frame codec, the JSON grammar of requests and responses,
//! request validation and dispatch, the named-pipe acceptor state machine
//! with its busy-retry backoff, and the pure parts of the surrounding
//! configuration and user-interface state handling.  Reading and writing the
//! actual streams, the RPC client, and the filesystem moves live outside the
//! library and are driven through the actions the dispatcher hands out.

pub mod acceptor;
pub mod backend;
pub mod dispatch;
pub mod frame;
pub mod json;
pub mod manifest;
pub mod page;
pub mod paths;
pub mod protocol;
pub mod utf8;
