//! A compiler and virtual machine for a small subset of C: source text is
//! lexed, parsed into a syntax tree, lowered to a linear bytecode program and
//! executed on a stack machine with call frames.

pub mod ast;
pub mod bytecode;
pub mod codegen;
pub mod evaluation;
pub mod grammar;
pub mod lexer;
pub mod parser;
pub mod vm;
