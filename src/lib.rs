//! Request parsing, path resolution and response building for a minimal
//! static-file HTTP server.
//!
//! - `text`: white space, words of a line, the first colon of a line.
//! - `headers`: the header table.
//! - `request`: parsing a request's lines into a `Request` or a `ParseError`.
//! - `response`: the bytes of successful and failure responses.
//! - `connection`: what a connection does once its request has been read.

pub mod connection;
pub mod headers;
pub mod request;
pub mod response;
pub mod text;
