//! Transcodes a game's save data between two platform-specific on-disk
//! encodings and decides how a pair of save locations is synchronized.
//!
//! The core is a fixed-key block-cipher transform plus a length-prefixed
//! framing format, together with the decision logic that picks the transfer
//! direction and route. File and process I/O stay outside this crate; the
//! functions here work on plain values and carry contracts for what they
//! compute.

pub mod archive;
pub mod crypto;
pub mod errors;
pub mod sync;
pub mod text;
pub mod utils;
