//! A verified lexer, parser and tree-walking interpreter for LEXOR, a small
//! strongly typed teaching language.

pub mod text;
pub mod token;
pub mod lexer;
pub mod expr;
pub mod stmt;
pub mod parser;
pub mod parser_laws;
pub mod error;
pub mod environment;
pub mod value;
pub mod interpreter;
pub mod interpreter_laws;
