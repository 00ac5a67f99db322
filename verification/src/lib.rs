//! A minimal HTTP/1.1 origin server, as a verified library: the request
//! parser, the response serializer, and the decisions a connection takes
//! between reading a request and writing the response.
//!
//! The library performs no I/O. A caller owns the sockets, the files and
//! the subprocesses, hands the bytes and outcomes it gets to these
//! functions, and carries out what they decide.

pub mod bytes;
pub mod error;
pub mod request;
pub mod response;
pub mod server;
