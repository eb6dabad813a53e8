//! A lexer for the DinoCode language, with the structures that the compiler
//! and the bytecode analysis share.

pub mod syntax;
pub mod operators;
pub mod ascii;
pub mod lexer;
pub mod text;
pub mod analysis;
pub mod parser;
pub mod diagnostic;
