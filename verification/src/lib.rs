//! Client engine for a line-oriented, header/body-framed event-and-command
//! protocol spoken over one long-lived TCP connection (an "event socket"
//! style protocol).
//!
//! The library holds the protocol logic: the frame codec that reassembles
//! discrete frames from an arbitrarily fragmented byte stream, the header
//! parser, the event data model and its classification, the authentication
//! state machine, the command formatters, and the session engine that ties
//! them together.  The socket itself, and the tasks that pump it, live with
//! the caller: bytes read from the wire are handed to [`session::Session`],
//! and the command strings it and the formatters produce are written back.

pub mod auth;
pub mod codec;
pub mod command;
pub mod error;
pub mod event;
pub mod headers;
pub mod session;
pub mod strutil;
