//! A verified lexical front end for the ISO 10303-21 ("STEP physical file")
//! exchange-structure syntax.
//!
//! The library turns an in-memory text buffer into a stream of classified
//! tokens.  Classification follows maximal munch: at each cursor position the
//! longest match over all categories wins, and ties at equal length are
//! resolved by a fixed priority ranking.  Malformed input is reported as a
//! recoverable item in the stream, never by panicking or stopping early.

pub mod chars;
pub mod classify;
pub mod laws;
pub mod lexer;
mod matcher;
pub mod pattern;
pub mod token;

pub use lexer::Lexer;
pub use token::LexicalError;
pub use token::Token;
