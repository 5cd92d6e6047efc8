//! A small scripting language: lexer, parser and scope bookkeeping,
//! with their behaviour stated in contracts and checked by Verus.
pub mod text;
pub mod literal;
pub mod types;
pub mod error;
pub mod lexer;
pub mod tokenizer;
pub mod scope_manager;
pub mod parser;
pub mod traits;
pub mod decoder;
