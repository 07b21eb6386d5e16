//! The disassembler pipeline: the input is read in fixed 8-byte records,
//! each decoded to its fields, the mnemonic recovered by reverse lookup,
//! and one text line rendered per record — registers in RD, RS1, RS2 order,
//! then the immediate as zero-padded lowercase hexadecimal.

use vstd::prelude::*;

use crate::codec::le_word;
use crate::codec::read_word_le;
use crate::codec::word_imm;
use crate::codec::word_mask;
use crate::codec::word_group;
use crate::codec::word_opcode;
use crate::codec::word_rd;
use crate::codec::word_rs1;
use crate::codec::word_rs2;
use crate::codec::CodeDescriptor;
use crate::errors::AsmError;
use crate::errors::ErrorKind;
use crate::isa::register_name;
use crate::isa::spec_inst_table;
use crate::isa::spec_reg_name;
use crate::isa::spec_scan_encoding;
use crate::isa::MuAsm;
use crate::numbers::hex8;
use crate::numbers::hex8_str;

verus! {

/// The rendered destination register, when the field mask holds one.
pub open spec fn rd_part(w: u64) -> Seq<char> {
    if word_mask(w) & 0x8 != 0 {
        seq![' '] + spec_reg_name(word_rd(w) as int)
    } else {
        seq![]
    }
}

/// The rendered first source register, when the field mask holds one.
pub open spec fn rs1_part(w: u64) -> Seq<char> {
    if word_mask(w) & 0x4 != 0 {
        seq![' '] + spec_reg_name(word_rs1(w) as int)
    } else {
        seq![]
    }
}

/// The rendered second source register, when the field mask holds one.
pub open spec fn rs2_part(w: u64) -> Seq<char> {
    if word_mask(w) & 0x2 != 0 {
        seq![' '] + spec_reg_name(word_rs2(w) as int)
    } else {
        seq![]
    }
}

/// The rendered immediate, when the field mask holds one.
pub open spec fn imm_part(w: u64) -> Seq<char> {
    if word_mask(w) & 0x1 != 0 {
        seq![' ', '0', 'x'] + hex8(word_imm(w) as u32)
    } else {
        seq![]
    }
}

/// The text line a word decodes to: the unique mnemonic for its encoding
/// triple, then the present operands in RD, RS1, RS2, immediate order.
pub open spec fn spec_render_word(w: u64) -> Result<Seq<char>, ErrorKind> {
    match spec_scan_encoding(
        spec_inst_table(),
        word_mask(w) as u8,
        word_group(w) as u8,
        word_opcode(w) as u8,
    ) {
        Err(e) => Err(e),
        Ok(name) => Ok(name + rd_part(w) + rs1_part(w) + rs2_part(w) + imm_part(w)),
    }
}

/// The lines the disassembler yields for the records of `bs` from offset
/// `i` on, or the first error with its byte offset; a trailing chunk
/// shorter than 8 bytes is a truncated stream.
pub open spec fn spec_disasm_at(bs: Seq<u8>, i: int) -> Result<Seq<Seq<char>>, AsmError>
    decreases bs.len() - i,
{
    if bs.len() - i <= 0 {
        Ok(seq![])
    } else if bs.len() - i < 8 {
        Err(AsmError { kind: ErrorKind::TruncatedStream, pos: i as usize })
    } else {
        match spec_render_word(le_word(bs.subrange(i, i + 8))) {
            Err(k) => Err(AsmError { kind: k, pos: i as usize }),
            Ok(line) => match spec_disasm_at(bs, i + 8) {
                Err(e) => Err(e),
                Ok(rest) => Ok(seq![line] + rest),
            },
        }
    }
}

/// What disassembling a whole byte stream yields.
pub open spec fn spec_disassemble(bs: Seq<u8>) -> Result<Seq<Seq<char>>, AsmError> {
    spec_disasm_at(bs, 0)
}

impl MuAsm {
    /// Renders one decoded word as its text line.
    pub fn disassemble_code(&self, code: &u64) -> (r: Result<String, ErrorKind>)
        ensures
            ({
                let sres = spec_render_word(*code);
                match r {
                    Ok(line) => sres is Ok && line@ == sres->Ok_0,
                    Err(e) => sres == Err::<Seq<char>, ErrorKind>(e),
                }
            }),
    {
        let cd = CodeDescriptor::new(code);
        proof {
            crate::codec::lemma_word_fields_bounded(*code);
        }
        let name = match self.lookup_by_encoding(
            cd.fields as u8,
            cd.opcode_group as u8,
            cd.opcode as u8,
        ) {
            Err(e) => {
                return Err(e);
            },
            Ok(n) => n,
        };
        let ghost w = *code;
        let ghost base = name@;
        let mut out = name;
        proof {
            reveal_strlit(" ");
            reveal_strlit(" 0x");
        }
        if cd.fields & 0x8 != 0 {
            out.append(" ");
            match register_name(cd.rd as u8) {
                Some(s) => out.append(s),
                None => (),
            }
        }
        proof {
            assert(out@ =~= base + rd_part(w));
        }
        if cd.fields & 0x4 != 0 {
            out.append(" ");
            match register_name(cd.rs1 as u8) {
                Some(s) => out.append(s),
                None => (),
            }
        }
        proof {
            assert(out@ =~= base + rd_part(w) + rs1_part(w));
        }
        if cd.fields & 0x2 != 0 {
            out.append(" ");
            match register_name(cd.rs2 as u8) {
                Some(s) => out.append(s),
                None => (),
            }
        }
        proof {
            assert(out@ =~= base + rd_part(w) + rs1_part(w) + rs2_part(w));
        }
        if cd.fields & 0x1 != 0 {
            out.append(" 0x");
            let h = hex8_str(cd.imm as u32);
            out.append(h.as_str());
        }
        proof {
            assert(out@ =~= base + rd_part(w) + rs1_part(w) + rs2_part(w) + imm_part(w));
        }
        Ok(out)
    }

    /// Disassembles a whole byte stream into one text line per 8-byte
    /// record.
    pub fn disassemble(&self, bytes: &Vec<u8>) -> (r: Result<Vec<String>, AsmError>)
        ensures
            ({
                let sres = spec_disassemble(bytes@);
                match r {
                    Ok(lines) => sres is Ok && lines@.map_values(|l: String| l@) == sres->Ok_0,
                    Err(e) => sres == Err::<Seq<Seq<char>>, AsmError>(e),
                }
            }),
    {
        let n = bytes.len();
        let mut out: Vec<String> = Vec::new();
        let mut i: usize = 0;
        proof {
            assert(out@.map_values(|l: String| l@) =~= Seq::<Seq<char>>::empty());
        }
        while n - i >= 8
            invariant
                0 <= i <= n,
                n == bytes.len(),
                i % 8 == 0,
                match spec_disasm_at(bytes@, i as int) {
                    Ok(rest) => spec_disassemble(bytes@) == Ok::<Seq<Seq<char>>, AsmError>(
                        out@.map_values(|l: String| l@) + rest,
                    ),
                    Err(e) => spec_disassemble(bytes@) == Err::<Seq<Seq<char>>, AsmError>(e),
                },
            decreases n - i,
        {
            let w = read_word_le(bytes, i);
            let line = match self.disassemble_code(&w) {
                Err(k) => {
                    return Err(AsmError { kind: k, pos: i });
                },
                Ok(l) => l,
            };
            let ghost old_out = out@.map_values(|l: String| l@);
            out.push(line);
            proof {
                assert(out@.map_values(|l: String| l@) =~= old_out.push(line@));
                let rest1 = spec_disasm_at(bytes@, i + 8);
                if rest1 is Ok {
                    assert(old_out + (seq![line@] + rest1->Ok_0) =~= out@.map_values(
                        |l: String| l@,
                    ) + rest1->Ok_0);
                }
            }
            i += 8;
        }
        if i < n {
            return Err(AsmError { kind: ErrorKind::TruncatedStream, pos: i });
        }
        proof {
            assert(out@.map_values(|l: String| l@) + Seq::<Seq<char>>::empty() =~= out@.map_values(
                |l: String| l@,
            ));
        }
        Ok(out)
    }
}

} // verus!
