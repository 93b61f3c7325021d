//! The assembler's error taxonomy. Every error is fatal: the driver stops
//! at the first one and reports it.

use vstd::prelude::*;

verus! {

/// A fatal assembly error, carrying the offending token where one exists.
#[derive(Clone, Debug, PartialEq)]
pub enum AsmError {
    /// A mnemonic that is neither a directive nor in the opcode catalog.
    UnknownMnemonic(String),
    /// A register name outside the register catalog.
    UnknownRegister(String),
    /// A label referenced in pass two but never defined in pass one.
    UnknownLabel(String),
    /// A literal referenced in pass two but never placed in a pool.
    UnresolvedLiteral,
    /// An operand that fits no recognized operand form.
    MalformedOperand(String),
    /// A malformed `=C'..'` / `=X'..'` literal or `C'..'` / `X'..'` constant.
    InvalidLiteral(String),
    /// A `+`-prefixed mnemonic whose native format is not Three.
    InvalidExtended(String),
    /// A line with no mnemonic field.
    MissingOpcode,
    /// A first line that is not a `START` directive.
    MissingStart,
    /// A `START` directive without an integer address operand.
    InvalidStartAddress,
    /// A `BASE` directive whose operand is neither a label nor an address.
    InvalidBaseOperand,
    /// A directive operand of the wrong kind (`RESW`/`RESB`/`WORD` without an
    /// integer, `BYTE` without a constant).
    InvalidDirectiveOperand,
    /// A displacement outside both the PC-relative and the base-relative
    /// range, or an address operand too wide for its field.
    DisplacementOutOfRange,
    /// A label defined on more than one line.
    DuplicateLabel(String),
    /// A location that left the 20-bit SIC/XE address space.
    ProgramTooLarge,
}

/// The mathematical shape of an [`AsmError`], with token payloads as
/// character sequences.
pub enum AsmErrorV {
    UnknownMnemonic(Seq<char>),
    UnknownRegister(Seq<char>),
    UnknownLabel(Seq<char>),
    UnresolvedLiteral,
    MalformedOperand(Seq<char>),
    InvalidLiteral(Seq<char>),
    InvalidExtended(Seq<char>),
    MissingOpcode,
    MissingStart,
    InvalidStartAddress,
    InvalidBaseOperand,
    InvalidDirectiveOperand,
    DisplacementOutOfRange,
    DuplicateLabel(Seq<char>),
    ProgramTooLarge,
}

impl View for AsmError {
    type V = AsmErrorV;

    open spec fn view(&self) -> AsmErrorV {
        match self {
            AsmError::UnknownMnemonic(t) => AsmErrorV::UnknownMnemonic(t@),
            AsmError::UnknownRegister(t) => AsmErrorV::UnknownRegister(t@),
            AsmError::UnknownLabel(t) => AsmErrorV::UnknownLabel(t@),
            AsmError::UnresolvedLiteral => AsmErrorV::UnresolvedLiteral,
            AsmError::MalformedOperand(t) => AsmErrorV::MalformedOperand(t@),
            AsmError::InvalidLiteral(t) => AsmErrorV::InvalidLiteral(t@),
            AsmError::InvalidExtended(t) => AsmErrorV::InvalidExtended(t@),
            AsmError::MissingOpcode => AsmErrorV::MissingOpcode,
            AsmError::MissingStart => AsmErrorV::MissingStart,
            AsmError::InvalidStartAddress => AsmErrorV::InvalidStartAddress,
            AsmError::InvalidBaseOperand => AsmErrorV::InvalidBaseOperand,
            AsmError::InvalidDirectiveOperand => AsmErrorV::InvalidDirectiveOperand,
            AsmError::DisplacementOutOfRange => AsmErrorV::DisplacementOutOfRange,
            AsmError::DuplicateLabel(t) => AsmErrorV::DuplicateLabel(t@),
            AsmError::ProgramTooLarge => AsmErrorV::ProgramTooLarge,
        }
    }
}

} // verus!
