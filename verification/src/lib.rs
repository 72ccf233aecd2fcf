//! A verified tokenizer for a small C-like language.
//!
//! Source text goes in as a `&str`; what comes out is the sequence of tokens,
//! each tagged with the line and column where it begins, or the first lexical
//! error with the position at which it was detected. Tokens that carry text
//! borrow it from the source buffer.
pub mod lexer;
