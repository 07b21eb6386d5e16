//! The instruction parser and operand classifier. A source line is split
//! into mnemonic and up to three operand tokens; each token classifies as a
//! register, an immediate (literal or resolved label), or empty, in a fixed
//! precedence order; the field-mask-driven slot table says which shape each
//! positional operand must have.

use vstd::prelude::*;

use crate::codec::spec_construct;
use crate::errors::ErrorKind;
use crate::errors::OperandClass;
use crate::isa::find_format;
use crate::isa::inst_table_vec;
use crate::isa::spec_find_format;
use crate::isa::spec_inst_table;
use crate::isa::spec_reg_index;
use crate::isa::register_index;
use crate::isa::MuAsm;
use crate::isa::REG_COUNT;
use crate::numbers::all_dec;
use crate::numbers::all_hex;
use crate::numbers::check_all_dec;
use crate::numbers::check_all_hex;
use crate::numbers::dec_u32;
use crate::numbers::dec_value;
use crate::numbers::hex_u32;
use crate::numbers::hex_value;
use crate::numbers::lemma_dec_value_nonneg;
use crate::numbers::lemma_hex_value_nonneg;
use crate::symtab::SymbolTable;
use crate::text::split_blanks;
use crate::text::tokens;

verus! {

/// Which field of the instruction word a positional operand fills.
#[derive(Clone, Copy, Debug, PartialEq, Eq, Structural)]
pub enum FieldKind {
    RD,
    RS1,
    RS2,
    IMM,
    NONE,
}

/// What an operand token denotes once classified.
#[derive(Clone, Copy, Debug, PartialEq, Eq, Structural)]
pub enum FieldValueKind {
    IMM(u32),
    REG(u8),
    EMPTY,
}

/// The operand shape a slot expects.
pub open spec fn class_of_kind(k: FieldKind) -> OperandClass {
    match k {
        FieldKind::RD => OperandClass::Register,
        FieldKind::RS1 => OperandClass::Register,
        FieldKind::RS2 => OperandClass::Register,
        FieldKind::IMM => OperandClass::Immediate,
        FieldKind::NONE => OperandClass::Empty,
    }
}

/// The operand shape a classified token has.
pub open spec fn class_of_value(v: FieldValueKind) -> OperandClass {
    match v {
        FieldValueKind::IMM(_) => OperandClass::Immediate,
        FieldValueKind::REG(_) => OperandClass::Register,
        FieldValueKind::EMPTY => OperandClass::Empty,
    }
}

/// How a raw operand token classifies, in this exact precedence order:
/// empty; label reference (resolved through the symbol table); `0x`
/// hexadecimal literal; decimal literal; register name. A numeric-looking
/// token therefore never reaches the register table.
pub open spec fn spec_classify(tok: Seq<char>, m: Map<Seq<char>, u32>) -> Result<
    FieldValueKind,
    ErrorKind,
> {
    if tok.len() == 0 {
        Ok(FieldValueKind::EMPTY)
    } else if tok[0] == '@' {
        if m.contains_key(tok) {
            Ok(FieldValueKind::IMM(m[tok]))
        } else {
            Err(ErrorKind::UnresolvedSymbol)
        }
    } else if tok.len() >= 2 && tok[0] == '0' && tok[1] == 'x' {
        if tok.len() == 2 || !all_hex(tok.skip(2)) {
            Err(ErrorKind::MalformedLiteral)
        } else if hex_value(tok.skip(2)) > u32::MAX {
            Err(ErrorKind::LiteralOutOfRange)
        } else {
            Ok(FieldValueKind::IMM(hex_value(tok.skip(2)) as u32))
        }
    } else if all_dec(tok) {
        if dec_value(tok) > u32::MAX {
            Err(ErrorKind::LiteralOutOfRange)
        } else {
            Ok(FieldValueKind::IMM(dec_value(tok) as u32))
        }
    } else {
        match spec_reg_index(tok) {
            Some(i) => Ok(FieldValueKind::REG(i)),
            None => Err(ErrorKind::UnknownOperand),
        }
    }
}

/// A classified register is always a real register index.
pub proof fn lemma_classify_reg_bound(tok: Seq<char>, m: Map<Seq<char>, u32>, r: u8)
    requires
        spec_classify(tok, m) == Ok::<FieldValueKind, ErrorKind>(FieldValueKind::REG(r)),
    ensures
        r < REG_COUNT,
{
    lemma_reg_index_bound(0, tok);
}

proof fn lemma_reg_index_bound(j: int, tok: Seq<char>)
    requires
        0 <= j,
    ensures
        crate::isa::spec_reg_index_from(j, tok) is Some ==> crate::isa::spec_reg_index_from(
            j,
            tok,
        )->Some_0 < REG_COUNT,
    decreases REG_COUNT - j,
{
    if j < REG_COUNT && !(crate::isa::spec_reg_name(j) == tok) {
        lemma_reg_index_bound(j + 1, tok);
    }
}

/// Operand precedence: any token of the shape `0x` followed by in-range
/// hexadecimal digits classifies as that immediate, whatever the symbol
/// table holds — never as a register.
pub proof fn lemma_hex_precedence(tok: Seq<char>, m: Map<Seq<char>, u32>)
    requires
        tok.len() >= 3,
        tok[0] == '0',
        tok[1] == 'x',
        all_hex(tok.skip(2)),
        hex_value(tok.skip(2)) <= u32::MAX,
    ensures
        spec_classify(tok, m) == Ok::<FieldValueKind, ErrorKind>(
            FieldValueKind::IMM(hex_value(tok.skip(2)) as u32),
        ),
{
}

/// A parsed source line: its text, its address, its mnemonic and its up to
/// three raw operand tokens (an absent operand is the empty string).
#[derive(Debug)]
pub struct InstructionDescriptor {
    pub text: String,
    pub address: u32,
    pub mnemonic: String,
    pub field1: String,
    pub field2: String,
    pub field3: String,
}

/// Spec-level image of a parsed source line.
pub struct InstView {
    pub text: Seq<char>,
    pub address: u32,
    pub mnemonic: Seq<char>,
    pub field1: Seq<char>,
    pub field2: Seq<char>,
    pub field3: Seq<char>,
}

impl View for InstructionDescriptor {
    type V = InstView;

    open spec fn view(&self) -> InstView {
        InstView {
            text: self.text@,
            address: self.address,
            mnemonic: self.mnemonic@,
            field1: self.field1@,
            field2: self.field2@,
            field3: self.field3@,
        }
    }
}

impl InstructionDescriptor {
    /// The blank descriptor: empty strings, address zero.
    pub fn new() -> (r: InstructionDescriptor)
        ensures
            r@ == (InstView {
                text: Seq::<char>::empty(),
                address: 0,
                mnemonic: Seq::<char>::empty(),
                field1: Seq::<char>::empty(),
                field2: Seq::<char>::empty(),
                field3: Seq::<char>::empty(),
            }),
    {
        InstructionDescriptor {
            text: String::new(),
            address: 0,
            mnemonic: String::new(),
            field1: String::new(),
            field2: String::new(),
            field3: String::new(),
        }
    }

    /// Classifies one raw operand token against the symbol table.
    pub fn parse_field(&self, field: &str, symbol_map: &SymbolTable) -> (r: Result<
        FieldValueKind,
        ErrorKind,
    >)
        ensures
            r == spec_classify(field@, symbol_map@),
    {
        let n = field.unicode_len();
        if n == 0 {
            return Ok(FieldValueKind::EMPTY);
        }
        let c0 = field.get_char(0);
        if c0 == '@' {
            return match symbol_map.get(field) {
                Some(a) => Ok(FieldValueKind::IMM(a)),
                None => Err(ErrorKind::UnresolvedSymbol),
            };
        }
        if n >= 2 && c0 == '0' && field.get_char(1) == 'x' {
            let rest = field.substring_char(2, n);
            proof {
                assert(rest@ =~= field@.skip(2));
            }
            if n == 2 || !check_all_hex(rest) {
                return Err(ErrorKind::MalformedLiteral);
            }
            proof {
                lemma_hex_value_nonneg(rest@);
            }
            return match hex_u32(rest) {
                Some(v) => Ok(FieldValueKind::IMM(v)),
                None => Err(ErrorKind::LiteralOutOfRange),
            };
        }
        if check_all_dec(field) {
            proof {
                lemma_dec_value_nonneg(field@);
            }
            return match dec_u32(field) {
                Some(v) => Ok(FieldValueKind::IMM(v)),
                None => Err(ErrorKind::LiteralOutOfRange),
            };
        }
        match register_index(field) {
            Some(i) => Ok(FieldValueKind::REG(i)),
            None => Err(ErrorKind::UnknownOperand),
        }
    }
}

/// The ordered operand slots each legal field mask dictates, positionally:
/// registers before immediates, destination first.
pub open spec fn spec_field_slots(mask: u8) -> Option<(FieldKind, FieldKind, FieldKind)> {
    if mask == 0x09 {
        Some((FieldKind::RD, FieldKind::IMM, FieldKind::NONE))
    } else if mask == 0x0c {
        Some((FieldKind::RD, FieldKind::RS1, FieldKind::NONE))
    } else if mask == 0x0e {
        Some((FieldKind::RD, FieldKind::RS1, FieldKind::RS2))
    } else if mask == 0x0d {
        Some((FieldKind::RD, FieldKind::RS1, FieldKind::IMM))
    } else if mask == 0x06 {
        Some((FieldKind::RS1, FieldKind::RS2, FieldKind::NONE))
    } else if mask == 0x05 {
        Some((FieldKind::RS1, FieldKind::IMM, FieldKind::NONE))
    } else if mask == 0x04 {
        Some((FieldKind::RS1, FieldKind::NONE, FieldKind::NONE))
    } else if mask == 0x01 {
        Some((FieldKind::IMM, FieldKind::NONE, FieldKind::NONE))
    } else if mask == 0x00 {
        Some((FieldKind::NONE, FieldKind::NONE, FieldKind::NONE))
    } else {
        None
    }
}

/// Executable slot table.
pub fn field_slots(mask: u8) -> (r: Option<(FieldKind, FieldKind, FieldKind)>)
    ensures
        r == spec_field_slots(mask),
{
    if mask == 0x09 {
        Some((FieldKind::RD, FieldKind::IMM, FieldKind::NONE))
    } else if mask == 0x0c {
        Some((FieldKind::RD, FieldKind::RS1, FieldKind::NONE))
    } else if mask == 0x0e {
        Some((FieldKind::RD, FieldKind::RS1, FieldKind::RS2))
    } else if mask == 0x0d {
        Some((FieldKind::RD, FieldKind::RS1, FieldKind::IMM))
    } else if mask == 0x06 {
        Some((FieldKind::RS1, FieldKind::RS2, FieldKind::NONE))
    } else if mask == 0x05 {
        Some((FieldKind::RS1, FieldKind::IMM, FieldKind::NONE))
    } else if mask == 0x04 {
        Some((FieldKind::RS1, FieldKind::NONE, FieldKind::NONE))
    } else if mask == 0x01 {
        Some((FieldKind::IMM, FieldKind::NONE, FieldKind::NONE))
    } else if mask == 0x00 {
        Some((FieldKind::NONE, FieldKind::NONE, FieldKind::NONE))
    } else {
        None
    }
}

/// Every mask the ISA table uses has a slot list, and every table entry's
/// opcode group and field mask fit their bit fields.
pub proof fn lemma_inst_table_entries_wf()
    ensures
        forall|i: int|
            0 <= i < spec_inst_table().len() ==> (#[trigger] spec_inst_table()[i]).field_mask < 16
                && spec_inst_table()[i].opcode_group < 32 && spec_field_slots(
                spec_inst_table()[i].field_mask,
            ) is Some,
{
    assert forall|i: int|
        0 <= i < spec_inst_table().len() implies (#[trigger] spec_inst_table()[i]).field_mask < 16
        && spec_inst_table()[i].opcode_group < 32 && spec_field_slots(
        spec_inst_table()[i].field_mask,
    ) is Some by {
        assert(spec_inst_table()[i] == crate::isa::spec_inst_entry(i));
    }
}

/// Checks one token against the slot that position must fill: a
/// classification error surfaces as itself; a shape mismatch names the slot
/// and both shapes.
pub open spec fn spec_slot_check(
    slot_no: u8,
    slot: FieldKind,
    tok: Seq<char>,
    m: Map<Seq<char>, u32>,
) -> Result<FieldValueKind, ErrorKind> {
    match spec_classify(tok, m) {
        Err(e) => Err(e),
        Ok(v) => if class_of_value(v) == class_of_kind(slot) {
            Ok(v)
        } else {
            Err(
                ErrorKind::OperandKindMismatch {
                    slot: slot_no,
                    expected: class_of_kind(slot),
                    actual: class_of_value(v),
                },
            )
        },
    }
}

/// The (rd, rs1, rs2, imm) quadruple with `slot` set from a checked value.
pub open spec fn quad_set(
    q: (u8, u8, u8, u32),
    slot: FieldKind,
    v: FieldValueKind,
) -> (u8, u8, u8, u32) {
    match (slot, v) {
        (FieldKind::RD, FieldValueKind::REG(r)) => (r, q.1, q.2, q.3),
        (FieldKind::RS1, FieldValueKind::REG(r)) => (q.0, r, q.2, q.3),
        (FieldKind::RS2, FieldValueKind::REG(r)) => (q.0, q.1, r, q.3),
        (FieldKind::IMM, FieldValueKind::IMM(x)) => (q.0, q.1, q.2, x),
        _ => q,
    }
}

/// The (rd, rs1, rs2, imm) quadruple an instruction's tokens denote, or the
/// first error its three operand positions raise, left to right.
pub open spec fn spec_encode_fields(
    mnemonic: Seq<char>,
    f1: Seq<char>,
    f2: Seq<char>,
    f3: Seq<char>,
    m: Map<Seq<char>, u32>,
) -> Result<(u8, u8, u8, u32), ErrorKind> {
    match spec_find_format(spec_inst_table(), mnemonic) {
        None => Err(ErrorKind::UnknownMnemonic),
        Some(fmt) => match spec_field_slots(fmt.field_mask) {
            // the ISA table never yields a mask outside the slot table
            None => Err(ErrorKind::UnknownMnemonic),
            Some(slots) => match spec_slot_check(1, slots.0, f1, m) {
                Err(e) => Err(e),
                Ok(v1) => match spec_slot_check(2, slots.1, f2, m) {
                    Err(e) => Err(e),
                    Ok(v2) => match spec_slot_check(3, slots.2, f3, m) {
                        Err(e) => Err(e),
                        Ok(v3) => Ok(
                            quad_set(
                                quad_set(quad_set((0u8, 0u8, 0u8, 0u32), slots.0, v1), slots.1, v2),
                                slots.2,
                                v3,
                            ),
                        ),
                    },
                },
            },
        },
    }
}

/// The full instruction word an instruction's mnemonic and tokens denote.
pub open spec fn spec_word_of(
    mnemonic: Seq<char>,
    f1: Seq<char>,
    f2: Seq<char>,
    f3: Seq<char>,
    m: Map<Seq<char>, u32>,
) -> Result<u64, ErrorKind> {
    match spec_find_format(spec_inst_table(), mnemonic) {
        None => Err(ErrorKind::UnknownMnemonic),
        Some(fmt) => match spec_encode_fields(mnemonic, f1, f2, f3, m) {
            Err(e) => Err(e),
            Ok(q) => Ok(
                spec_construct(
                    q.3 as u64,
                    q.2 as u64,
                    q.1 as u64,
                    q.0 as u64,
                    fmt.opcode as u64,
                    fmt.opcode_group as u64,
                    fmt.field_mask as u64,
                ),
            ),
        },
    }
}

impl InstructionDescriptor {
    /// Classifies one token and holds it against the slot it must fill.
    pub fn encode_field(
        &self,
        slot: FieldKind,
        slot_no: u8,
        field: &str,
        symbol_map: &SymbolTable,
    ) -> (r: Result<FieldValueKind, ErrorKind>)
        ensures
            r == spec_slot_check(slot_no, slot, field@, symbol_map@),
    {
        match self.parse_field(field, symbol_map) {
            Err(e) => Err(e),
            Ok(v) => {
                let expected = match slot {
                    FieldKind::RD => OperandClass::Register,
                    FieldKind::RS1 => OperandClass::Register,
                    FieldKind::RS2 => OperandClass::Register,
                    FieldKind::IMM => OperandClass::Immediate,
                    FieldKind::NONE => OperandClass::Empty,
                };
                let actual = match v {
                    FieldValueKind::IMM(_) => OperandClass::Immediate,
                    FieldValueKind::REG(_) => OperandClass::Register,
                    FieldValueKind::EMPTY => OperandClass::Empty,
                };
                if actual == expected {
                    Ok(v)
                } else {
                    Err(ErrorKind::OperandKindMismatch { slot: slot_no, expected, actual })
                }
            },
        }
    }

    /// Validates the three operand tokens against the mnemonic's slot list
    /// and packs the resolved values into the low bits of the word.
    pub fn encode_fields(&self, symbol_map: &SymbolTable) -> (r: Result<u64, ErrorKind>)
        ensures
            ({
                let sres = spec_encode_fields(
                    self@.mnemonic,
                    self@.field1,
                    self@.field2,
                    self@.field3,
                    symbol_map@,
                );
                match sres {
                    Ok(q) => r == Ok::<u64, ErrorKind>(
                        spec_construct(q.3 as u64, q.2 as u64, q.1 as u64, q.0 as u64, 0, 0, 0),
                    ),
                    Err(e) => r == Err::<u64, ErrorKind>(e),
                }
            }),
    {
        let table = inst_table_vec();
        let fmt = match find_format(&table, self.mnemonic.as_str()) {
            None => {
                return Err(ErrorKind::UnknownMnemonic);
            },
            Some(f) => f,
        };
        let slots = match field_slots(fmt.field_mask) {
            None => {
                return Err(ErrorKind::UnknownMnemonic);
            },
            Some(s) => s,
        };
        let (s1, s2, s3) = slots;
        let v1 = match self.encode_field(s1, 1, self.field1.as_str(), symbol_map) {
            Err(e) => {
                return Err(e);
            },
            Ok(v) => v,
        };
        let v2 = match self.encode_field(s2, 2, self.field2.as_str(), symbol_map) {
            Err(e) => {
                return Err(e);
            },
            Ok(v) => v,
        };
        let v3 = match self.encode_field(s3, 3, self.field3.as_str(), symbol_map) {
            Err(e) => {
                return Err(e);
            },
            Ok(v) => v,
        };
        let mut rd: u8 = 0;
        let mut rs1: u8 = 0;
        let mut rs2: u8 = 0;
        let mut imm: u32 = 0;
        match (s1, v1) {
            (FieldKind::RD, FieldValueKind::REG(r)) => rd = r,
            (FieldKind::RS1, FieldValueKind::REG(r)) => rs1 = r,
            (FieldKind::RS2, FieldValueKind::REG(r)) => rs2 = r,
            (FieldKind::IMM, FieldValueKind::IMM(x)) => imm = x,
            _ => (),
        }
        match (s2, v2) {
            (FieldKind::RD, FieldValueKind::REG(r)) => rd = r,
            (FieldKind::RS1, FieldValueKind::REG(r)) => rs1 = r,
            (FieldKind::RS2, FieldValueKind::REG(r)) => rs2 = r,
            (FieldKind::IMM, FieldValueKind::IMM(x)) => imm = x,
            _ => (),
        }
        match (s3, v3) {
            (FieldKind::RD, FieldValueKind::REG(r)) => rd = r,
            (FieldKind::RS1, FieldValueKind::REG(r)) => rs1 = r,
            (FieldKind::RS2, FieldValueKind::REG(r)) => rs2 = r,
            (FieldKind::IMM, FieldValueKind::IMM(x)) => imm = x,
            _ => (),
        }
        proof {
            let q = quad_set(
                quad_set(quad_set((0u8, 0u8, 0u8, 0u32), s1, v1), s2, v2),
                s3,
                v3,
            );
            assert(q == (rd, rs1, rs2, imm));
        }
        let low: u64 = ((imm as u64) & 0xffffffff) | (((rs2 as u64) & 0x1f) << 32) | (((
        rs1 as u64) & 0x1f) << 37) | (((rd as u64) & 0x1f) << 42);
        proof {
            assert(forall|a: u64, b: u64, c: u64, d: u64|
                #[trigger] spec_construct(a, b, c, d, 0, 0, 0) == (a & 0xffffffff) | ((b & 0x1f)
                    << 32) | ((c & 0x1f) << 37) | ((d & 0x1f) << 42)) by (bit_vector);
        }
        Ok(low)
    }
}

/// Spec-level image of parsing one instruction line: the first token is the
/// mnemonic, the next three (where present) are the raw operands; tokens
/// past the fourth are ignored; the address is filled in by the scan phase.
pub open spec fn spec_parse_inst(s: Seq<char>) -> InstView {
    let toks = tokens(s);
    InstView {
        text: s,
        address: 0,
        mnemonic: toks[0],
        field1: if toks.len() > 1 {
            toks[1]
        } else {
            Seq::empty()
        },
        field2: if toks.len() > 2 {
            toks[2]
        } else {
            Seq::empty()
        },
        field3: if toks.len() > 3 {
            toks[3]
        } else {
            Seq::empty()
        },
    }
}

impl MuAsm {
    /// Parses one non-blank, non-label source line into a descriptor.
    pub fn parse_instruction(&self, s: &str) -> (inst: InstructionDescriptor)
        requires
            tokens(s@).len() > 0,
        ensures
            inst@ == spec_parse_inst(s@),
    {
        let words = split_blanks(s);
        let mnemonic = words[0].clone();
        let field1 = if words.len() > 1 {
            words[1].clone()
        } else {
            String::new()
        };
        let field2 = if words.len() > 2 {
            words[2].clone()
        } else {
            String::new()
        };
        let field3 = if words.len() > 3 {
            words[3].clone()
        } else {
            String::new()
        };
        InstructionDescriptor {
            text: String::from_str(s),
            address: 0,
            mnemonic,
            field1,
            field2,
            field3,
        }
    }

    /// Decoding a word back into a descriptor is not performed: this yields
    /// the blank descriptor whatever the word is. Use
    /// [`MuAsm::disassemble_code`] to render a word as text.
    pub fn parse_code(&self, code: &u64) -> (inst: InstructionDescriptor)
        ensures
            inst@ == (InstView {
                text: Seq::<char>::empty(),
                address: 0,
                mnemonic: Seq::<char>::empty(),
                field1: Seq::<char>::empty(),
                field2: Seq::<char>::empty(),
                field3: Seq::<char>::empty(),
            }),
    {
        let _ = code;
        InstructionDescriptor::new()
    }
}


/// A register's own name classifies as that register, whatever the symbol
/// table holds.
pub proof fn lemma_classify_reg_name(i: int, m: Map<Seq<char>, u32>)
    requires
        0 <= i < REG_COUNT,
    ensures
        spec_classify(crate::isa::spec_reg_name(i), m) == Ok::<FieldValueKind, ErrorKind>(
            FieldValueKind::REG(i as u8),
        ),
{
    let name = crate::isa::spec_reg_name(i);
    assert(name[0] == 'R');
    assert(!crate::numbers::is_dec_digit('R'));
    crate::isa::lemma_reg_index_of_name(i);
}

/// A zero-padded hexadecimal rendering, prefixed `0x`, classifies back as
/// the value it renders, whatever the symbol table holds.
pub proof fn lemma_classify_hex_token(v: u32, m: Map<Seq<char>, u32>)
    ensures
        spec_classify(seq!['0', 'x'] + crate::numbers::hex8(v), m) == Ok::<
            FieldValueKind,
            ErrorKind,
        >(FieldValueKind::IMM(v)),
{
    let tok = seq!['0', 'x'] + crate::numbers::hex8(v);
    crate::numbers::lemma_hex8_reparse(v);
    assert(tok.len() == 10);
    assert(tok[0] == '0');
    assert(tok[1] == 'x');
    assert(tok.skip(2) =~= crate::numbers::hex8(v));
}

/// Whatever quadruple the field encoder yields, its register indices are
/// real registers.
pub proof fn lemma_encode_fields_quad_bounds(
    mnemonic: Seq<char>,
    f1: Seq<char>,
    f2: Seq<char>,
    f3: Seq<char>,
    m: Map<Seq<char>, u32>,
)
    requires
        spec_encode_fields(mnemonic, f1, f2, f3, m) is Ok,
    ensures
        ({
            let q = spec_encode_fields(mnemonic, f1, f2, f3, m)->Ok_0;
            q.0 < REG_COUNT && q.1 < REG_COUNT && q.2 < REG_COUNT
        }),
{
    let fmt = spec_find_format(spec_inst_table(), mnemonic)->Some_0;
    let slots = spec_field_slots(fmt.field_mask)->Some_0;
    let v1 = spec_slot_check(1, slots.0, f1, m)->Ok_0;
    let v2 = spec_slot_check(2, slots.1, f2, m)->Ok_0;
    let v3 = spec_slot_check(3, slots.2, f3, m)->Ok_0;
    if v1 is REG {
        lemma_classify_reg_bound(f1, m, v1->REG_0);
    }
    if v2 is REG {
        lemma_classify_reg_bound(f2, m, v2->REG_0);
    }
    if v3 is REG {
        lemma_classify_reg_bound(f3, m, v3->REG_0);
    }
}

} // verus!
