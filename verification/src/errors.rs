//! Diagnostics: everything the assembler can reject a source line for.

use vstd::prelude::*;

verus! {

/// Why a token, line or program was rejected.
#[derive(Clone, Copy, Debug, PartialEq, Eq, Structural)]
pub enum AsmError {
    /// A `#...` directive other than the known ones.
    UnknownDirective,
    /// A mnemonic that names no instruction.
    UnknownInstruction,
    /// An `r...`/`f...` token whose index is not a hexadecimal byte.
    InvalidRegisterIndex,
    /// An `&...` token that is not a hexadecimal `u64`.
    InvalidHexLiteral,
    /// A decimal literal too large for a `u64`.
    LiteralOverflow,
    /// Too few operands for any arm of the mnemonic.
    InvalidArgumentCount,
    /// Operands whose variants fit no arm of the mnemonic.
    InvalidOperand,
    /// Arithmetic or compare-jump operands mixing the integer and floating
    /// point register families.
    MismatchedRegisterTypes,
    /// A label or data-block name registered twice.
    DuplicateSymbol,
    /// A fixup whose label or data-block name was never registered.
    UndefinedSymbol,
    /// Layout ran past the end of the address space.
    AddressOverflow,
}

impl AsmError {
    /// The user-facing message for this error.
    pub open spec fn spec_message(self) -> Seq<char> {
        match self {
            AsmError::UnknownDirective => "Unknown assembler command."@,
            AsmError::UnknownInstruction => "Invalid instruction."@,
            AsmError::InvalidRegisterIndex => "Invalid register index."@,
            AsmError::InvalidHexLiteral => "Invalid hex literal."@,
            AsmError::LiteralOverflow => "Literal does not fit into a u64."@,
            AsmError::InvalidArgumentCount => "Invalid number of arguments."@,
            AsmError::InvalidOperand => "Invalid argument arrangement."@,
            AsmError::MismatchedRegisterTypes => "Mismatched register types."@,
            AsmError::DuplicateSymbol => "Duplicate symbol."@,
            AsmError::UndefinedSymbol => "Undefined symbol."@,
            AsmError::AddressOverflow => "Program does not fit into the address space."@,
        }
    }

    /// The user-facing message for this error.
    pub fn message(&self) -> (r: &'static str)
        ensures
            r@ == self.spec_message(),
    {
        match self {
            AsmError::UnknownDirective => "Unknown assembler command.",
            AsmError::UnknownInstruction => "Invalid instruction.",
            AsmError::InvalidRegisterIndex => "Invalid register index.",
            AsmError::InvalidHexLiteral => "Invalid hex literal.",
            AsmError::LiteralOverflow => "Literal does not fit into a u64.",
            AsmError::InvalidArgumentCount => "Invalid number of arguments.",
            AsmError::InvalidOperand => "Invalid argument arrangement.",
            AsmError::MismatchedRegisterTypes => "Mismatched register types.",
            AsmError::DuplicateSymbol => "Duplicate symbol.",
            AsmError::UndefinedSymbol => "Undefined symbol.",
            AsmError::AddressOverflow => "Program does not fit into the address space.",
        }
    }
}

/// An error together with the source position that provoked it.
#[derive(Debug)]
pub struct Diagnostic {
    pub kind: AsmError,
    /// Path of the source file the offending line came from.
    pub file: String,
    /// 1-based line number within that file.
    pub line: usize,
}

} // verus!
