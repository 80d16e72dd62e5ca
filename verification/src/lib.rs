//! A verified core for a minimal HTTP/1.1 server.
//!
//! The library parses a request (start line and headers) out of a raw byte
//! buffer and decides which response a connection handler should produce.
//! All I/O stays outside: callers hand in the bytes that were read and carry
//! out the actions this library returns.

pub mod parse;
pub mod render;
pub mod response;
pub mod route;
pub mod token;
