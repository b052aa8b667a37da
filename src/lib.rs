//! A front end for a SQLite-compatible SQL dialect: a tokenizer, a statement
//! parser and the syntax tree it builds.
pub mod keywords;
pub mod tok;
pub mod ast;
pub mod parser;
