//! A small object-oriented scripting language: scanner, compilers and garbage collector.

pub mod scanner;
pub mod token;
pub mod chunk;
pub mod table;
pub mod value;
pub mod objects;
pub mod gc;
pub mod compiler;
pub mod error;
pub mod errors;
pub mod expose;
pub mod parser;
pub mod peg;
pub mod peg_rules;
pub mod grammar_parser;
pub mod parse_node;
pub mod packages;
pub mod parsers;
pub mod cupid_rules;
