//! A lexer for WGSL shader source.
//!
//! The lexer turns source text into tokens with the byte positions at which
//! they stand.
//!
//! - [`token`] and [`error`] hold what is handed out: tokens, spans and
//!   failures, each with its mathematical value.
//! - [`chars`] names the character classes, and [`text`] relates characters
//!   to the bytes that encode them.
//! - [`scan`] reads one token off the start of a text, [`number`] the
//!   numeric literals among them, and [`literal`] the value of an integer
//!   literal.
//! - [`cursor`] moves over a whole source, skips white space and comments,
//!   and reads the values and lists that a parser asks for.
//! - [`laws`] states what holds of every source: reads are deterministic,
//!   they reach the end of the input and stay there, and the text at the
//!   span of a token spells that token.
pub mod chars;
pub mod cursor;
pub mod error;
pub mod laws;
pub mod literal;
pub mod number;
pub mod scan;
pub mod text;
pub mod token;
