//! The core of a client for a request/response key-value protocol.
//!
//! The library does no input or output. It frames commands, decodes
//! replies, coerces them to typed results, classifies failures, and decides
//! what a driver on a transport must do next.
//!
//! - [`command`]: the requests of the catalog.
//! - [`grammar`], [`codec`], [`framing`]: the wire format, the functions that
//!   write and read it, and what holds of them.
//! - [`reply`], [`outcome`], [`mapping`], [`keytype`]: replies and the typed
//!   results that operations make of them.
//! - [`error`]: the failures, and how an error reply is classified.
//! - [`client`], [`conduct`]: the client's state machine, and what holds of
//!   its conduct.
//! - [`digits`], [`bytes`]: decimal text and byte strings.

pub mod bytes;
pub mod client;
pub mod codec;
pub mod command;
pub mod conduct;
pub mod digits;
pub mod error;
pub mod framing;
pub mod grammar;
pub mod keytype;
pub mod mapping;
pub mod outcome;
pub mod reply;
