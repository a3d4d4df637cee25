//! The stages of the front end, from text to a checked syntax tree.

pub mod ast;
pub mod grammar;
pub mod lexer;
pub mod parser;
pub mod symbols;
pub mod path_exp;
pub mod type_checking;
pub mod path_laws;
pub mod symbol_laws;
