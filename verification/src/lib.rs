//! A cross-assembler for the MOS 6502 family: source text goes in, the bytes
//! the processor would execute come out.
//!
//! The pipeline is `lexer`, `parser`, `linker` (label addresses) and `assembler`
//! (code generation). Every stage is stated against a mathematical model of
//! the source text and proved to follow it.

pub mod chars;
pub mod lexer;
pub mod instruction;
pub mod ast;
pub mod parser;
pub mod error;
pub mod linker;
pub mod assembler;
pub mod laws;
