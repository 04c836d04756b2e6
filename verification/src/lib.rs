//! Engine session core for driving a UCI chess engine over its standard
//! input and output streams.
//!
//! The crate holds the session's logic: the move notation codec, the
//! protocol line classifier and parser, the streaming response accumulator
//! that turns arbitrarily chunked output bytes into a decision, and the
//! fixed startup command sequence. Protocol text is handled as raw bytes:
//! lines split on newline bytes and tokens on ASCII whitespace, and a token
//! that decodes to nothing is dropped field by field, never aborting a
//! session. The process spawn and the pipe reads and writes themselves stay
//! with the caller.

pub mod codec;
pub mod line;
pub mod session;
pub mod stream;
pub mod tokens;
