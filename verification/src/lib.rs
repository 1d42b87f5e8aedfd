//! Core of a small counting service: answers inclusive date-range queries over
//! per-day counter files and speaks a framed binary protocol on a byte stream.
//!
//! The crate holds the protocol data model and calendar arithmetic
//! ([`protocol`]), the byte-level message encoding and framing ([`wire`]), the
//! date-range aggregation state machine ([`aggregate`]), and the per-connection
//! lifecycle state machine ([`handler`]). All I/O (listening, stream reads and
//! writes, directory listing, file reads) is performed by the surrounding
//! program, which feeds plain values into these machines.

pub mod aggregate;
pub mod handler;
pub mod protocol;
mod text;
pub mod wire;
