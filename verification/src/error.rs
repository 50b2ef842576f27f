//! The fatal failures an assembly run can end in, each carrying enough
//! context to locate the offending token or label.

use vstd::prelude::*;

verus! {

/// A fatal assembly failure.
#[derive(Debug)]
pub enum AsmError {
    /// A register operand was not `r<N>` with `N` below the register count;
    /// carries the offending text.
    BadRegister(String),
    /// A bit-width operand was not one of `8`, `16`, `32`, `64`; carries the
    /// offending text.
    BadWidth(String),
    /// A numeric operand was malformed or out of range for its field;
    /// carries the offending text.
    BadNumber(String),
    /// A required operand was absent; carries the operand's name.
    MissingOperand(String),
    /// The mnemonic names no known instruction; carries the mnemonic.
    UnknownMnemonic(String),
    /// The `ldconst16` sub-index was not below 4; carries the value.
    SubIndexRange(u32),
    /// A relocation's target label was never defined; carries the label.
    UnknownLabel(String),
}

/// The mathematical shape of an [`AsmError`], over character sequences.
pub enum AsmErrV {
    BadRegister(Seq<char>),
    BadWidth(Seq<char>),
    BadNumber(Seq<char>),
    MissingOperand(Seq<char>),
    UnknownMnemonic(Seq<char>),
    SubIndexRange(u32),
    UnknownLabel(Seq<char>),
}

impl View for AsmError {
    type V = AsmErrV;

    open spec fn view(&self) -> AsmErrV {
        match self {
            AsmError::BadRegister(s) => AsmErrV::BadRegister(s@),
            AsmError::BadWidth(s) => AsmErrV::BadWidth(s@),
            AsmError::BadNumber(s) => AsmErrV::BadNumber(s@),
            AsmError::MissingOperand(s) => AsmErrV::MissingOperand(s@),
            AsmError::UnknownMnemonic(s) => AsmErrV::UnknownMnemonic(s@),
            AsmError::SubIndexRange(v) => AsmErrV::SubIndexRange(*v),
            AsmError::UnknownLabel(s) => AsmErrV::UnknownLabel(s@),
        }
    }
}

} // verus!
