//! A verified front end for a small Lox-family scripting language: a lexical
//! scanner that turns source text into a stream of classified tokens, and a
//! recursive-descent parser that turns the token stream into an expression
//! tree with the usual arithmetic and comparison precedence levels.

pub mod lexer;
pub mod numeric;
pub mod parser;
pub mod text;
