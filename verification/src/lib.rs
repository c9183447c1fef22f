//! A lexical analyzer for a small statically-typed scripting language.
//!
//! The lexer turns source text into a flat, lazily produced stream of
//! tokens: reserved words, one-character delimiters and operators,
//! identifiers, string literals, numeric literals, and error tokens for
//! malformed lexemes.  Malformed input never aborts the stream; every
//! failure is surfaced as an error token and the stream stays pullable.

pub mod chars;
pub mod laws;
pub mod lexer;
pub mod numeric;
pub mod token;
