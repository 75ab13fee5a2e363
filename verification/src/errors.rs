//! Error taxonomy of the pipeline: lexical errors are detected while
//! scanning, assembly errors while building the symbol table or resolving
//! operands, and runtime faults while executing.

use vstd::prelude::*;

verus! {

/// A fatal lexical error: scanning stops and nothing is assembled.
#[derive(Debug, Clone, Copy, PartialEq, Eq, Structural)]
pub enum LexError {
    /// A register operand `rN` whose numeric suffix is 16 or more.
    InvalidRegister,
    /// A decimal literal that does not fit in the 0..=255 range.
    NumberOverflow,
}

/// A fatal assembly error: no instruction of the program executes.
#[derive(Debug, Clone, Copy, PartialEq, Eq, Structural)]
pub enum AsmError {
    /// The scanner rejected the source text.
    Lexical(LexError),
    /// A `.define` constant or a label was bound twice.
    DuplicateSymbol,
    /// An operand names a symbol that no `.define` or label binds.
    UndefinedSymbol,
    /// Wrong operand count or kind for a mnemonic, a malformed `.define`,
    /// or an operand token outside any instruction line.
    MalformedInstruction,
}

/// The reason an execution was aborted.
#[derive(Debug, Clone, Copy, PartialEq, Eq, Structural)]
pub enum RuntimeFault {
    /// The program counter left the instruction sequence.
    ProgramCounterOutOfRange,
    /// The step budget was exhausted before the program halted.
    StepLimitExceeded,
}

} // verus!
