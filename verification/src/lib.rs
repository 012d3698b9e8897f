//! A parser for a small relational query notation.
//!
//! Source text is turned into an [`ast::Exp`] by a cascade of precedence
//! rules. Every executable rule is proved to return exactly what the
//! grammar in [`grammar`] assigns to its input.

pub mod ast;
pub mod error;
pub mod grammar;
pub mod laws;
pub mod layout;
pub mod lexical;
pub mod parse;
mod scan;
pub mod text;
