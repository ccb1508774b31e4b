//! A codec for HTTP/1.x messages: it reads a request out of the bytes of a connection and
//! writes the bytes of a response.
//!
//! - [`request`] reads the request line and the header block, and answers a request once.
//! - [`response`] builds a response and serialises it, the headers in the order of their
//!   names, the body compressed where the client takes the compression.
//! - [`header`] holds the headers that the codec understands, each with the rule by which
//!   its value is read and written.
//! - [`uri`], [`search`], [`mime`], [`cookie`], [`accept`] and [`cache`] read and write the
//!   parts of a message that have a syntax of their own.
//! - [`common`] holds the small vocabularies: method, version, status and the like.
//! - [`text`], [`number`], [`percent`] and [`compress`] are what the others are built on.
//!
//! Every function states what it gives over the views of its arguments, and is proved to
//! give it. What the standard library and the crates `urlencoding`, `flate2` and `brotli`
//! compute is taken on trust, under a name where it cannot be stated in a few lines.

pub mod accept;
pub mod cache;
pub mod common;
pub mod compress;
pub mod cookie;
pub mod header;
pub mod mime;
pub mod number;
pub mod percent;
pub mod request;
pub mod response;
pub mod search;
pub mod text;
pub mod uri;
