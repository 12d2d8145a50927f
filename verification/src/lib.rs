//! Decoder for the binary "user statistics" log of a game server.
//!
//! The file starts with a textual header line; after it come records made of
//! a newline-terminated name field followed by a fixed-width little-endian
//! binary tail.  The decoder turns such a byte stream into typed records,
//! in file order, and reports malformed input with a typed error.

pub mod codec;
pub mod text;
pub mod parser;
pub mod laws;
pub mod output;
