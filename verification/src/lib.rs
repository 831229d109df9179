//! A client library for a line-oriented mail-retrieval protocol.
//!
//! The heart of the crate is a verified line-framing engine
//! ([`line_reader::LineReader`]) that turns the byte stream of a blocking
//! transport into decoded text lines, and a response-protocol engine built
//! on top of it that implements the single-line and multi-line reply
//! conventions of the protocol, including status classification and
//! leading-dot unescaping.  The typed commands of a session (STAT, LIST,
//! RETR, ...) are formatter/parser pairs layered on that engine.
//!
//! The transport itself (an encrypted socket) is abstracted by the
//! [`transport::Transport`] trait; an implementation over a real TLS
//! stream lives outside the verified library.

use vstd::prelude::*;

pub mod line_reader;
pub mod parse;
pub mod session;
pub mod text;
pub mod transport;

verus! {

/// The closed set of failures a session operation can surface.
#[derive(Debug)]
pub enum Pop3Error {
    /// The underlying byte transport failed; carries a description.
    Transport(String),
    /// A single protocol line did not fit the fixed line buffer.
    BufferExceeded,
    /// A received line was not valid text.
    Decode,
    /// The server answered with a negative status reply; carries the
    /// full status line as received.
    Protocol(String),
    /// A positive reply did not have the expected field shape; carries
    /// the name of the field that was expected.
    Parse(String),
}

/// Maildrop statistics: how many messages are stored and their total size.
#[derive(Debug, PartialEq, Eq, Structural, Clone, Copy)]
pub struct Pop3Stat {
    /// count of messages in the maildrop
    pub message_count: u32,
    /// size of the maildrop in bytes
    pub maildrop_size: u32,
}

/// One entry of a message listing.
#[derive(Debug, PartialEq, Eq, Structural, Clone, Copy)]
pub struct Pop3MessageInfo {
    /// numerical id of the message used for various commands
    pub message_id: u32,
    /// size of the message in bytes
    pub message_size: u32,
}

/// One entry of a unique-id listing.
#[derive(Debug)]
pub struct Pop3MessageUidInfo {
    /// numerical id of the message used for various commands
    pub message_id: u32,
    /// unique id of the message, an opaque token
    pub unique_id: String,
}

} // verus!
