//! Lexical analysis and runtime-value core of a small scripting language.
//!
//! The `lexer` module turns source text into a located token stream; the
//! `lex_model` module holds the mathematical description of that stream that
//! the lexer is verified against.  The `value` module holds the dynamically
//! typed runtime value and its arithmetic and slicing rules.

pub mod token;
pub mod lex_model;
pub mod lexer;
pub mod value;
pub mod laws;
