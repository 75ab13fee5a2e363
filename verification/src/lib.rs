//! A small assembler and simulator for a fictitious 8-bit machine with
//! 16 registers and 128 memory cells.
//!
//! Source text is scanned into tokens, symbols (`.define` constants and
//! labels) are collected in a first pass, a second pass resolves every
//! operand into a decoded instruction, and an execution engine interprets
//! the instruction sequence against an explicit machine state.

pub mod assembler;
pub mod errors;
pub mod lexer;
pub mod machine;
pub mod symbols;
pub mod token;
