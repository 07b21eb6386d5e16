//! The 64-bit instruction word codec. The bit layout is stated once, by
//! [`spec_construct`] and the seven `word_*` extractors, and both the
//! encoder and the decoder are proved against it: bits [0,32) immediate,
//! [32,37) RS2, [37,42) RS1, [42,47) RD, [47,55) opcode, [55,60) opcode
//! group, [60,64) field mask (bit 0 least significant).

use vstd::prelude::*;

verus! {

pub open spec fn word_imm(w: u64) -> u64 {
    w & 0xffffffff
}

pub open spec fn word_rs2(w: u64) -> u64 {
    (w >> 32) & 0x1f
}

pub open spec fn word_rs1(w: u64) -> u64 {
    (w >> 37) & 0x1f
}

pub open spec fn word_rd(w: u64) -> u64 {
    (w >> 42) & 0x1f
}

pub open spec fn word_opcode(w: u64) -> u64 {
    (w >> 47) & 0xff
}

pub open spec fn word_group(w: u64) -> u64 {
    (w >> 55) & 0x1f
}

pub open spec fn word_mask(w: u64) -> u64 {
    (w >> 60) & 0xf
}

/// The word holding the given field values; each value is truncated to its
/// field's width.
pub open spec fn spec_construct(
    imm: u64,
    rs2: u64,
    rs1: u64,
    rd: u64,
    opcode: u64,
    opcode_group: u64,
    fields: u64,
) -> u64 {
    (imm & 0xffffffff) | ((rs2 & 0x1f) << 32) | ((rs1 & 0x1f) << 37) | ((rd & 0x1f) << 42) | ((
    opcode & 0xff) << 47) | ((opcode_group & 0x1f) << 55) | ((fields & 0xf) << 60)
}

/// Unpacking a packed word recovers every field: for all values within
/// their bit widths the codec loses nothing.
pub proof fn lemma_word_round_trip(
    imm: u64,
    rs2: u64,
    rs1: u64,
    rd: u64,
    opcode: u64,
    opcode_group: u64,
    fields: u64,
)
    by (bit_vector)
    requires
        imm <= 0xffffffff,
        rs2 <= 0x1f,
        rs1 <= 0x1f,
        rd <= 0x1f,
        opcode <= 0xff,
        opcode_group <= 0x1f,
        fields <= 0xf,
    ensures
        word_imm(spec_construct(imm, rs2, rs1, rd, opcode, opcode_group, fields)) == imm,
        word_rs2(spec_construct(imm, rs2, rs1, rd, opcode, opcode_group, fields)) == rs2,
        word_rs1(spec_construct(imm, rs2, rs1, rd, opcode, opcode_group, fields)) == rs1,
        word_rd(spec_construct(imm, rs2, rs1, rd, opcode, opcode_group, fields)) == rd,
        word_opcode(spec_construct(imm, rs2, rs1, rd, opcode, opcode_group, fields)) == opcode,
        word_group(spec_construct(imm, rs2, rs1, rd, opcode, opcode_group, fields)) == opcode_group,
        word_mask(spec_construct(imm, rs2, rs1, rd, opcode, opcode_group, fields)) == fields,
{
}

/// Every extracted field lies within its width.
pub proof fn lemma_word_fields_bounded(w: u64)
    by (bit_vector)
    ensures
        word_imm(w) <= 0xffffffff,
        word_rs2(w) <= 0x1f,
        word_rs1(w) <= 0x1f,
        word_rd(w) <= 0x1f,
        word_opcode(w) <= 0xff,
        word_group(w) <= 0x1f,
        word_mask(w) <= 0xf,
{
}

/// Repacking the fields of any word yields the word again.
pub proof fn lemma_word_repack(w: u64)
    by (bit_vector)
    ensures
        spec_construct(
            word_imm(w),
            word_rs2(w),
            word_rs1(w),
            word_rd(w),
            word_opcode(w),
            word_group(w),
            word_mask(w),
        ) == w,
{
}

/// A word with its six upper fields and its low 32 bits, as the decoder
/// sees it.
#[derive(Debug)]
pub struct CodeDescriptor {
    pub code: u64,
    pub imm: u64,
    pub rs2: u64,
    pub rs1: u64,
    pub rd: u64,
    pub opcode: u64,
    pub opcode_group: u64,
    pub fields: u64,
}

impl CodeDescriptor {
    /// Decodes a word into its seven fields.
    pub fn new(code: &u64) -> (r: CodeDescriptor)
        ensures
            r.code == *code,
            r.imm == word_imm(*code),
            r.rs2 == word_rs2(*code),
            r.rs1 == word_rs1(*code),
            r.rd == word_rd(*code),
            r.opcode == word_opcode(*code),
            r.opcode_group == word_group(*code),
            r.fields == word_mask(*code),
    {
        let w = *code;
        CodeDescriptor {
            code: w,
            imm: w & 0xffffffff,
            rs2: (w >> 32) & 0x1f,
            rs1: (w >> 37) & 0x1f,
            rd: (w >> 42) & 0x1f,
            opcode: (w >> 47) & 0xff,
            opcode_group: (w >> 55) & 0x1f,
            fields: (w >> 60) & 0xf,
        }
    }

    /// Packs the given field values (truncated to their widths) and decodes
    /// the result.
    pub fn construct(
        imm: u64,
        rs2: u64,
        rs1: u64,
        rd: u64,
        opcode: u64,
        opcode_group: u64,
        fields: u64,
    ) -> (r: CodeDescriptor)
        ensures
            r.code == spec_construct(imm, rs2, rs1, rd, opcode, opcode_group, fields),
            r.imm == word_imm(r.code),
            r.rs2 == word_rs2(r.code),
            r.rs1 == word_rs1(r.code),
            r.rd == word_rd(r.code),
            r.opcode == word_opcode(r.code),
            r.opcode_group == word_group(r.code),
            r.fields == word_mask(r.code),
    {
        let code: u64 = (imm & 0xffffffff) | ((rs2 & 0x1f) << 32) | ((rs1 & 0x1f) << 37) | ((rd
            & 0x1f) << 42) | ((opcode & 0xff) << 47) | ((opcode_group & 0x1f) << 55) | ((fields
            & 0xf) << 60);
        CodeDescriptor::new(&code)
    }
}

/// The eight bytes of a word, least significant first.
pub open spec fn le_bytes(w: u64) -> Seq<u8> {
    Seq::new(8, |i: int| ((w >> ((8 * i) as u64)) & 0xff) as u8)
}

/// The word eight little-endian bytes denote.
pub open spec fn le_word(b: Seq<u8>) -> u64 {
    (b[0] as u64) | ((b[1] as u64) << 8) | ((b[2] as u64) << 16) | ((b[3] as u64) << 24) | ((
    b[4] as u64) << 32) | ((b[5] as u64) << 40) | ((b[6] as u64) << 48) | ((b[7] as u64) << 56)
}

/// Reading a word's little-endian bytes back yields the word.
pub proof fn lemma_le_round_trip(w: u64)
    ensures
        le_word(le_bytes(w)) == w,
{
    let b0 = ((w >> 0) & 0xff) as u8;
    let b1 = ((w >> 8) & 0xff) as u8;
    let b2 = ((w >> 16) & 0xff) as u8;
    let b3 = ((w >> 24) & 0xff) as u8;
    let b4 = ((w >> 32) & 0xff) as u8;
    let b5 = ((w >> 40) & 0xff) as u8;
    let b6 = ((w >> 48) & 0xff) as u8;
    let b7 = ((w >> 56) & 0xff) as u8;
    assert((b0 as u64) | ((b1 as u64) << 8) | ((b2 as u64) << 16) | ((b3 as u64) << 24) | ((
    b4 as u64) << 32) | ((b5 as u64) << 40) | ((b6 as u64) << 48) | ((b7 as u64) << 56) == w)
        by (bit_vector)
        requires
            b0 == ((w >> 0) & 0xff) as u8,
            b1 == ((w >> 8) & 0xff) as u8,
            b2 == ((w >> 16) & 0xff) as u8,
            b3 == ((w >> 24) & 0xff) as u8,
            b4 == ((w >> 32) & 0xff) as u8,
            b5 == ((w >> 40) & 0xff) as u8,
            b6 == ((w >> 48) & 0xff) as u8,
            b7 == ((w >> 56) & 0xff) as u8,
    ;
}

/// Appends the eight little-endian bytes of `w`.
pub fn push_word_le(out: &mut Vec<u8>, w: u64)
    ensures
        final(out)@ == old(out)@ + le_bytes(w),
{
    out.push((w & 0xff) as u8);
    out.push(((w >> 8) & 0xff) as u8);
    out.push(((w >> 16) & 0xff) as u8);
    out.push(((w >> 24) & 0xff) as u8);
    out.push(((w >> 32) & 0xff) as u8);
    out.push(((w >> 40) & 0xff) as u8);
    out.push(((w >> 48) & 0xff) as u8);
    out.push(((w >> 56) & 0xff) as u8);
    proof {
        assert((w & 0xff) == ((w >> 0) & 0xff)) by (bit_vector);
        assert(out@ =~= old(out)@ + le_bytes(w));
    }
}

/// Reads the word whose eight little-endian bytes sit at `off`.
pub fn read_word_le(bytes: &Vec<u8>, off: usize) -> (w: u64)
    requires
        off + 8 <= bytes@.len(),
    ensures
        w == le_word(bytes@.subrange(off as int, off + 8)),
{
    let n = bytes.len();
    assert(off + 8 <= n);
    let w = (bytes[off] as u64) | ((bytes[off + 1] as u64) << 8) | ((bytes[off + 2] as u64) << 16)
        | ((bytes[off + 3] as u64) << 24) | ((bytes[off + 4] as u64) << 32) | ((bytes[off
        + 5] as u64) << 40) | ((bytes[off + 6] as u64) << 48) | ((bytes[off + 7] as u64) << 56);
    proof {
        assert(forall|k: int|
            0 <= k < 8 ==> #[trigger] bytes@.subrange(off as int, off + 8)[k] == bytes@[off + k]);
    }
    w
}

} // verus!
