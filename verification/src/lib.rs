//! A lexical scanner for a small scripting language.
//!
//! [`scanner::Scanner`] turns a source text into a sequence of
//! [`token::Token`]s and a sequence of [`lox_error::LexError`]s. What those
//! sequences are, for any text, is defined in [`grammar`]; the scanner is
//! proved to compute exactly that.

pub mod grammar;
pub mod lox_error;
pub mod text;
pub mod token;
pub mod scanner;
