//! The front end of a small compiler: a position-tracking tokenizer and a
//! recursive-descent parser for a small, statically typed, C-like language.
//! Both are verified against a functional statement of the grammar; callers
//! get back the token list, the syntax tree, and the diagnostics that the
//! two stages reported.

pub mod arguments;
pub mod diagnostics;
pub mod file_position;
pub mod lex;
pub mod parse;
