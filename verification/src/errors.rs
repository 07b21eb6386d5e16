//! Error model: every failure of the two pipelines is identified by a kind,
//! together with the position at which it was detected (the 1-based source
//! line for the assembler, the byte offset of the offending record for the
//! disassembler).

use vstd::prelude::*;

verus! {

/// The three shapes an operand token can classify as.
#[derive(Clone, Copy, Debug, PartialEq, Eq, Structural)]
pub enum OperandClass {
    Register,
    Immediate,
    Empty,
}

/// Every way an assembly or disassembly invocation can fail.
#[derive(Clone, Copy, Debug, PartialEq, Eq, Structural)]
pub enum ErrorKind {
    /// The instruction mnemonic is not in the ISA table.
    UnknownMnemonic,
    /// A label operand names a symbol absent from the symbol table.
    UnresolvedSymbol,
    /// A `0x` operand whose remainder is not a nonempty hexadecimal string.
    MalformedLiteral,
    /// A numeric operand whose value does not fit in 32 bits.
    LiteralOutOfRange,
    /// An operand that is neither a literal, a symbol, nor a register name.
    UnknownOperand,
    /// An operand classifies as a different shape than its slot demands, a
    /// required operand is missing, or an extra operand is present.
    OperandKindMismatch { slot: u8, expected: OperandClass, actual: OperandClass },
    /// The ISA table holds more than one entry for one encoding triple.
    AmbiguousEncoding,
    /// No ISA entry matches a decoded (field mask, group, opcode) triple.
    UnknownEncoding,
    /// The disassembler input is not a whole number of 8-byte records.
    TruncatedStream,
}

/// An error kind together with the position where it was detected.
#[derive(Clone, Copy, Debug, PartialEq, Eq, Structural)]
pub struct AsmError {
    pub kind: ErrorKind,
    pub pos: usize,
}

} // verus!
