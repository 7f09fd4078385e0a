//! A small schema language: record definitions with typed fields are lexed,
//! parsed into a syntax tree, and turned into an example JSON document.
//!
//! - [`lexer`]: source text to tokens, and what a scan of the text yields.
//! - [`grammar`]: the grammar over the stream of tokens.
//! - [`parser`]: the parser that follows the grammar.
//! - [`notation`]: records written down as tokens, and read back.
//! - [`writing`]: documents written down as text, and read back.
//! - [`ast`]: records, fields and types.
//! - [`synthesis`]: what the placeholder of a document is.
//! - [`compiler`]: the synthesizer that builds it, and the compilation of a
//!   source text.
//! - [`json`], [`text`]: what is taken from `serde_json` and from the
//!   standard library without proof.
//! - [`error`], [`cli`]: errors, notes and options.

pub mod ast;
pub mod cli;
pub mod compiler;
pub mod error;
pub mod grammar;
pub mod json;
pub mod lexer;
pub mod notation;
pub mod parser;
pub mod synthesis;
pub mod text;
pub mod writing;
