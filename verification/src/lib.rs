//! A lexer for CommonMark block structure, together with the diagnostics,
//! syntax tree and parser configuration that surround it.

pub mod ast;
pub mod chars;
pub mod diagnostic;
pub mod input;
pub mod lexer;
pub mod machine;
pub mod order;
pub mod parser;
pub mod span;
pub mod tags;
pub mod text;
pub mod token;
