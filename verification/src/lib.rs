//! A reader for a minimal Lisp-like textual notation: symbols, quoted
//! strings, integers, decimal numbers, and parenthesized nested lists.
//!
//! The single entry point is [`parser::parse`], which turns one line of text
//! into a [`value::Value`] tree or reports a typed [`value::ParseError`].
//! What every input parses to is written down once, as the grammar model in
//! [`grammar`], and the executable scanner and parser are proved to agree
//! with it; the general properties of the notation are proved in [`laws`].
pub mod classify;
pub mod grammar;
pub mod laws;
pub mod parser;
pub mod render;
pub mod scanner;
pub mod value;
