//! A two-way translator for a small fixed-width instruction set:
//! assembly text to packed 64-bit little-endian instruction words, and back.
//!
//! The crate is organised around a single shared instruction-set model:
//! the ISA table and register table (`isa`), the operand classifier and
//! instruction parser (`parser`), the bit-level word codec (`codec`), and
//! the two pipelines built on them (`assembler`, `disassembler`).

pub mod assembler;
pub mod codec;
pub mod disassembler;
pub mod errors;
pub mod isa;
pub mod numbers;
pub mod parser;
pub mod roundtrip;
pub mod symtab;
pub mod text;

pub use codec::CodeDescriptor;
pub use errors::AsmError;
pub use errors::ErrorKind;
pub use errors::OperandClass;
pub use isa::InstructionFormat;
pub use isa::MuAsm;
pub use parser::InstructionDescriptor;
pub use symtab::LabelDescriptor;
pub use symtab::SymbolTable;
