//! The decisions of a persistent rustc worker for Bazel.
//!
//! Such a worker reads requests from its standard input and writes a response to each. A
//! Rust library is asked for twice, once for its metadata and once for the library itself,
//! and the worker serves both requests from one run of rustc: the first is answered as soon
//! as rustc announces the metadata, while rustc goes on for the second.
//!
//! This crate holds what the worker decides, from values to values. Reading, writing,
//! waiting and running rustc are left to its caller.
//!
//! - [`framing`]: where a request begins and ends in the stream of bytes;
//! - [`grammar`]: which runs of bytes are frames;
//! - [`json`]: JSON values, read and written with `tinyjson`;
//! - [`protocol`]: requests and responses;
//! - [`response`]: a response is one frame and one line;
//! - [`readback`]: a response, and the place of a parse error, are read back as they were
//!   meant;
//! - [`flags`]: the arguments that are meant for the worker and not for rustc;
//! - [`key`]: how the two requests for one crate find each other;
//! - [`inflight`]: the crates under way, and who waits for what;
//! - [`request`]: the steps in which a request is handled;
//! - [`text`]: the string operations of std, with contracts.

pub mod flags;
pub mod framing;
pub mod grammar;
pub mod inflight;
pub mod json;
pub mod key;
pub mod protocol;
pub mod readback;
pub mod request;
pub mod response;
pub mod text;
