//! Core of a minimal synchronous HTTP/1.x server: percent-decoding of request
//! targets, request-header parsing, response-content resolution, and the
//! decision logic of the accept/shutdown loop.
//!
//! Everything here is plain computation on strings and bytes.  The
//! surrounding program supplies the sockets, threads and files and hands the
//! results back in as ordinary values.

pub mod request;
pub mod response;
pub mod server;
pub mod text;
pub mod uri;
