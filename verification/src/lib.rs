//! A small compiler for a C-like language: lexer, parser and type checker,
//! an SSA-like intermediate representation with dataflow analyses and
//! optimisations, and a RISC-V backend.

pub mod backend;
pub mod frontend;
pub mod middleend;
pub mod text;
