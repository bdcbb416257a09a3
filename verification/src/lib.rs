//! The protocol core of a low-latency RPC framework over UDP datagrams.
//!
//! A call is a function name and its arguments, packed into an *envelope*.
//! An envelope that does not fit one datagram travels as *chunks*, which may
//! arrive in any order, twice, or not at all. This crate holds the parts of
//! that which must not go wrong on bytes from the network:
//!
//! - [`protocol::wire`]: the two wire formats and their laws, and
//!   [`protocol::codec`]: codecs that read them with every bound checked
//!   before a byte is touched;
//! - [`protocol::parser`]: reassembly of calls from their chunks, and
//!   [`protocol::reassembly`]: what it means and which laws it obeys;
//! - [`container`]: the registry of functions that can be called;
//! - [`dispatch`]: which function a call names, and what is answered;
//! - [`codec`]: the frame around the value codec.
//!
//! Sockets, handlers and their futures are the caller's business. Nothing
//! here performs I/O, and nothing here panics.

pub mod buffer;
pub mod codec;
pub mod container;
pub mod dispatch;
pub mod endian;
pub mod protocol;

pub use container::Container;
