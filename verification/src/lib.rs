//! A minimal HTTP origin server, with the network left out.
//!
//! The crate holds the decisions of such a server as functions on plain
//! values: which path the bytes of a request ask for, which handler answers a path, how a
//! handler's HTML is cleaned up and framed as an HTTP/1.1 response, when the
//! header section of a request has been read, and what the accept loop does
//! with a connection. A program around it owns the socket and the threads,
//! reads the lines and writes the response.
//!
//! The server is deliberately simple. It reads the path of a request and
//! nothing else, answers every request with the status `200 OK`, also where
//! the page says that nothing was found, and closes the connection after one
//! response.
//!
//! Every function is verified against its contract. Two things are assumed
//! of the standard library, both stated in `text`: that `String::push`
//! appends the character it is given, and that `String::from_utf8` succeeds
//! exactly on UTF-8 and keeps the bytes. The rest of the standard library is
//! used as vstd specifies it.

pub mod html;
pub mod pages;
pub mod request;
pub mod response;
pub mod routes;
pub mod server;
pub mod text;
