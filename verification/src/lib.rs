//! Semantic analysis for the Suru language: scopes and symbols, type
//! interning, Hindley-Milner unification, module registries, and the
//! front end (lexer and parser) that produces the syntax tree it checks.

pub mod string_storage;
pub mod text;
pub mod limits;
pub mod lexer;
pub mod ast;
pub mod parser;
pub mod semantic;
pub mod assoc;
pub mod prefix;
