//! Lexer and recursive-descent expression parser for a small C-like
//! scripting language.

pub mod token;
pub mod text;
pub mod scanner;
pub mod expr;
pub mod parser;
