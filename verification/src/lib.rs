//! A verified implementation of a length-prefixed, text-and-binary wire
//! protocol for exchanging typed values between a client and a key/value
//! store over a byte stream.
//!
//! The core is the frame codec in [`protocol`]: the bidirectional mapping
//! between a typed in-memory frame and its exact wire bytes, with an
//! incremental decoder that signals incompleteness without consuming or
//! corrupting the connection buffer.  Every codec function carries a
//! contract against a mathematical model of the grammar, and
//! `protocol::laws` proves the round-trip, prefix-incompleteness,
//! null-distinctness and span-prediction laws of that model.  The command
//! layer in [`cmd`] turns decoded frames into operations against the store
//! in [`backend`].

pub mod backend;
pub mod cmd;
pub mod protocol;
