//! The round-trip law: a line that assembles, disassembles back to a
//! canonical line carrying the same instruction, and that canonical line
//! assembles to the very same bytes. It rests on the shared bit layout, the
//! uniqueness of the decode key, and the operand classifier's precedence.

use vstd::prelude::*;

use crate::assembler::clean_line;
use crate::assembler::is_inst_line;
use crate::assembler::is_label_line;
use crate::assembler::nth_token;
use crate::assembler::spec_assemble;
use crate::assembler::spec_insts;
use crate::assembler::spec_insts_at;
use crate::assembler::spec_line_word;
use crate::assembler::spec_output;
use crate::assembler::spec_sym_map;
use crate::codec::le_bytes;
use crate::codec::le_word;
use crate::codec::lemma_le_round_trip;
use crate::codec::lemma_word_round_trip;
use crate::codec::word_imm;
use crate::codec::word_mask;
use crate::codec::word_group;
use crate::codec::word_opcode;
use crate::codec::word_rd;
use crate::codec::word_rs1;
use crate::codec::word_rs2;
use crate::disassembler::imm_part;
use crate::disassembler::rd_part;
use crate::disassembler::rs1_part;
use crate::disassembler::rs2_part;
use crate::disassembler::spec_disasm_at;
use crate::disassembler::spec_disassemble;
use crate::disassembler::spec_render_word;
use crate::errors::ErrorKind;
use crate::isa::lemma_find_format_in_table;
use crate::isa::lemma_inst_table_mnemonic_chars;
use crate::isa::lemma_scan_encoding_of_entry;
use crate::isa::spec_find_format;
use crate::isa::spec_inst_table;
use crate::isa::spec_reg_name;
use crate::numbers::hex8;
use crate::numbers::hex_digit_char;
use crate::numbers::lemma_hex8_reparse;
use crate::parser::lemma_classify_hex_token;
use crate::parser::lemma_classify_reg_name;
use crate::parser::lemma_encode_fields_quad_bounds;
use crate::parser::lemma_inst_table_entries_wf;
use crate::parser::spec_encode_fields;
use crate::parser::spec_field_slots;
use crate::parser::spec_word_of;
use crate::text::is_blank;
use crate::text::lemma_strip_comment_none;
use crate::text::lemma_tokens_prepend_token;
use crate::text::lemma_trim_noop;
use crate::text::tokens;

verus! {

/// A plain word: nonempty, no blanks, no comment marker.
pub open spec fn plain_word(s: Seq<char>) -> bool {
    s.len() > 0 && forall|k: int| 0 <= k < s.len() ==> !is_blank(#[trigger] s[k]) && s[k] != ';'
}

/// Tokens joined with one leading blank each.
pub open spec fn spaced(ts: Seq<Seq<char>>) -> Seq<char>
    decreases ts.len(),
{
    if ts.len() == 0 {
        seq![]
    } else {
        seq![' '] + ts[0] + spaced(ts.skip(1))
    }
}

proof fn lemma_tokens_spaced(ts: Seq<Seq<char>>)
    requires
        forall|i: int| 0 <= i < ts.len() ==> plain_word(#[trigger] ts[i]),
    ensures
        tokens(spaced(ts)) == ts,
        forall|k: int| 0 <= k < spaced(ts).len() ==> (#[trigger] spaced(ts)[k]) != ';',
        ts.len() > 0 ==> spaced(ts).len() > 0 && spaced(ts).last() == ts.last().last(),
        spaced(ts).len() > 0 ==> is_blank(spaced(ts)[0]),
    decreases ts.len(),
{
    if ts.len() == 0 {
        assert(tokens(spaced(ts)) =~= ts);
    } else {
        assert(forall|i: int| 0 <= i < ts.skip(1).len() ==> ts.skip(1)[i] == ts[i + 1]);
        lemma_tokens_spaced(ts.skip(1));
        let s = spaced(ts);
        assert(s == seq![' '] + ts[0] + spaced(ts.skip(1)));
        assert(s[0] == ' ');
        assert(s.skip(1) =~= ts[0] + spaced(ts.skip(1)));
        lemma_tokens_prepend_token(ts[0], spaced(ts.skip(1)));
        assert(tokens(s) == tokens(s.skip(1)));
        assert(tokens(s) =~= ts);
        if ts.skip(1).len() > 0 {
            assert(ts.skip(1).last() == ts.last());
            assert(s.last() == spaced(ts.skip(1)).last());
        } else {
            assert(spaced(ts.skip(1)) =~= Seq::<char>::empty());
            assert(s.last() == ts[0].last());
            assert(ts.last() == ts[0]);
        }
    }
}

proof fn lemma_digit_chars()
    ensures
        forall|d: int|
            0 <= d < 16 ==> !is_blank(#[trigger] hex_digit_char(d)) && hex_digit_char(d) != ';'
                && hex_digit_char(d) != '@',
{
}

proof fn lemma_reg_name_plain(i: int)
    requires
        0 <= i < 32,
    ensures
        plain_word(spec_reg_name(i)),
{
    lemma_digit_chars();
}

proof fn lemma_hex_token_plain(v: u32)
    ensures
        plain_word(seq!['0', 'x'] + hex8(v)),
{
    lemma_digit_chars();
    let t = seq!['0', 'x'] + hex8(v);
    assert(forall|sh: u32| ((v >> sh) & 0xf) < 16) by (bit_vector);
    assert forall|k: int| 0 <= k < t.len() implies !is_blank(#[trigger] t[k]) && t[k] != ';' by {
        if k >= 2 {
            assert(t[k] == hex8(v)[k - 2]);
        }
    }
}

/// The decoded image of an encoder-produced word: same mnemonic by reverse
/// lookup, same fields by the shared bit layout.
proof fn lemma_word_decodes(
    mn: Seq<char>,
    f1: Seq<char>,
    f2: Seq<char>,
    f3: Seq<char>,
    m: Map<Seq<char>, u32>,
    w: u64,
)
    requires
        spec_word_of(mn, f1, f2, f3, m) == Ok::<u64, ErrorKind>(w),
    ensures
        ({
            let fmt = spec_find_format(spec_inst_table(), mn)->Some_0;
            let q = spec_encode_fields(mn, f1, f2, f3, m)->Ok_0;
            &&& spec_find_format(spec_inst_table(), mn) is Some
            &&& spec_encode_fields(mn, f1, f2, f3, m) is Ok
            &&& fmt.mnemonic == mn
            &&& plain_word(mn) && mn[0] != '@'
            &&& spec_field_slots(fmt.field_mask) is Some
            &&& q.0 < 32 && q.1 < 32 && q.2 < 32
            &&& word_mask(w) == fmt.field_mask as u64
            &&& word_group(w) == fmt.opcode_group as u64
            &&& word_opcode(w) == fmt.opcode as u64
            &&& word_rd(w) == q.0 as u64
            &&& word_rs1(w) == q.1 as u64
            &&& word_rs2(w) == q.2 as u64
            &&& word_imm(w) == q.3 as u64
            &&& spec_render_word(w) == Ok::<Seq<char>, ErrorKind>(
                mn + rd_part(w) + rs1_part(w) + rs2_part(w) + imm_part(w),
            )
        }),
{
    let fmt = spec_find_format(spec_inst_table(), mn)->Some_0;
    let q = spec_encode_fields(mn, f1, f2, f3, m)->Ok_0;
    lemma_find_format_in_table(spec_inst_table(), mn);
    let idx = choose|i: int|
        0 <= i < spec_inst_table().len() && spec_inst_table()[i] == spec_find_format(
            spec_inst_table(),
            mn,
        )->Some_0;
    lemma_inst_table_entries_wf();
    lemma_inst_table_mnemonic_chars();
    lemma_encode_fields_quad_bounds(mn, f1, f2, f3, m);
    lemma_word_round_trip(
        q.3 as u64,
        q.2 as u64,
        q.1 as u64,
        q.0 as u64,
        fmt.opcode as u64,
        fmt.opcode_group as u64,
        fmt.field_mask as u64,
    );
    lemma_scan_encoding_of_entry(idx);
}

proof fn lemma_spaced1(a: Seq<char>)
    ensures
        spaced(seq![a]) =~= seq![' '] + a,
{
    assert(seq![a].skip(1) =~= Seq::<Seq<char>>::empty());
    assert(spaced(Seq::<Seq<char>>::empty()) == Seq::<char>::empty());
}

proof fn lemma_spaced2(a: Seq<char>, b: Seq<char>)
    ensures
        spaced(seq![a, b]) =~= seq![' '] + a + (seq![' '] + b),
{
    assert(seq![a, b].skip(1) =~= seq![b]);
    lemma_spaced1(b);
}

proof fn lemma_spaced3(a: Seq<char>, b: Seq<char>, c: Seq<char>)
    ensures
        spaced(seq![a, b, c]) =~= seq![' '] + a + (seq![' '] + b) + (seq![' '] + c),
{
    assert(seq![a, b, c].skip(1) =~= seq![b, c]);
    lemma_spaced2(b, c);
}

/// Rendering an encoder-produced word yields a canonical line: clean as it
/// stands, an instruction line, and one that encodes back to the same word
/// under any symbol table.
#[verifier::rlimit(100)]
pub proof fn lemma_render_line_reassembles(
    mn: Seq<char>,
    f1: Seq<char>,
    f2: Seq<char>,
    f3: Seq<char>,
    m: Map<Seq<char>, u32>,
    m2: Map<Seq<char>, u32>,
    w: u64,
)
    requires
        spec_word_of(mn, f1, f2, f3, m) == Ok::<u64, ErrorKind>(w),
    ensures
        spec_render_word(w) is Ok,
        ({
            let r = spec_render_word(w)->Ok_0;
            &&& clean_line(r) == r
            &&& is_inst_line(r)
            &&& spec_line_word(r, m2) == Ok::<u64, ErrorKind>(w)
        }),
{
    lemma_word_decodes(mn, f1, f2, f3, m, w);
    let fmt = spec_find_format(spec_inst_table(), mn)->Some_0;
    let q = spec_encode_fields(mn, f1, f2, f3, m)->Ok_0;
    let slots = spec_field_slots(fmt.field_mask)->Some_0;
    let r = spec_render_word(w)->Ok_0;
    let rdn = spec_reg_name(q.0 as int);
    let rs1n = spec_reg_name(q.1 as int);
    let rs2n = spec_reg_name(q.2 as int);
    let hexs = seq!['0', 'x'] + hex8(q.3);
    lemma_reg_name_plain(q.0 as int);
    lemma_reg_name_plain(q.1 as int);
    lemma_reg_name_plain(q.2 as int);
    lemma_hex_token_plain(q.3);
    lemma_hex8_reparse(q.3);
    assert((word_imm(w) as u32) == q.3);
    assert((word_rd(w) as int) == q.0 as int);
    assert((word_rs1(w) as int) == q.1 as int);
    assert((word_rs2(w) as int) == q.2 as int);
    lemma_classify_reg_name(q.0 as int, m2);
    lemma_classify_reg_name(q.1 as int, m2);
    lemma_classify_reg_name(q.2 as int, m2);
    lemma_classify_hex_token(q.3, m2);
    let v1 = crate::parser::spec_slot_check(1, slots.0, f1, m)->Ok_0;
    let v2 = crate::parser::spec_slot_check(2, slots.1, f2, m)->Ok_0;
    let v3 = crate::parser::spec_slot_check(3, slots.2, f3, m)->Ok_0;
    assert(q == crate::parser::quad_set(
        crate::parser::quad_set(
            crate::parser::quad_set((0u8, 0u8, 0u8, 0u32), slots.0, v1),
            slots.1,
            v2,
        ),
        slots.2,
        v3,
    ));
    assert(0x9u64 & 0x8 != 0 && 0x9u64 & 0x4 == 0 && 0x9u64 & 0x2 == 0 && 0x9u64 & 0x1 != 0
        && 0xcu64 & 0x8 != 0 && 0xcu64 & 0x4 != 0 && 0xcu64 & 0x2 == 0 && 0xcu64 & 0x1 == 0
        && 0xeu64 & 0x8 != 0 && 0xeu64 & 0x4 != 0 && 0xeu64 & 0x2 != 0 && 0xeu64 & 0x1 == 0
        && 0xdu64 & 0x8 != 0 && 0xdu64 & 0x4 != 0 && 0xdu64 & 0x2 == 0 && 0xdu64 & 0x1 != 0
        && 0x6u64 & 0x8 == 0 && 0x6u64 & 0x4 != 0 && 0x6u64 & 0x2 != 0 && 0x6u64 & 0x1 == 0
        && 0x5u64 & 0x8 == 0 && 0x5u64 & 0x4 != 0 && 0x5u64 & 0x2 == 0 && 0x5u64 & 0x1 != 0
        && 0x4u64 & 0x8 == 0 && 0x4u64 & 0x4 != 0 && 0x4u64 & 0x2 == 0 && 0x4u64 & 0x1 == 0
        && 0x1u64 & 0x8 == 0 && 0x1u64 & 0x4 == 0 && 0x1u64 & 0x2 == 0 && 0x1u64 & 0x1 != 0
        && 0x0u64 & 0x8 == 0 && 0x0u64 & 0x4 == 0 && 0x0u64 & 0x2 == 0 && 0x0u64 & 0x1 == 0)
        by (bit_vector);
    let ts: Seq<Seq<char>> = if fmt.field_mask == 0x09 {
        seq![rdn, hexs]
    } else if fmt.field_mask == 0x0c {
        seq![rdn, rs1n]
    } else if fmt.field_mask == 0x0e {
        seq![rdn, rs1n, rs2n]
    } else if fmt.field_mask == 0x0d {
        seq![rdn, rs1n, hexs]
    } else if fmt.field_mask == 0x06 {
        seq![rs1n, rs2n]
    } else if fmt.field_mask == 0x05 {
        seq![rs1n, hexs]
    } else if fmt.field_mask == 0x04 {
        seq![rs1n]
    } else if fmt.field_mask == 0x01 {
        seq![hexs]
    } else {
        seq![]
    };
    assert(forall|i: int| 0 <= i < ts.len() ==> plain_word(#[trigger] ts[i]));
    lemma_tokens_spaced(ts);
    if fmt.field_mask == 0x09 {
        lemma_spaced2(rdn, hexs);
        assert(r =~= mn + spaced(ts));
    } else if fmt.field_mask == 0x0c {
        lemma_spaced2(rdn, rs1n);
        assert(r =~= mn + spaced(ts));
    } else if fmt.field_mask == 0x0e {
        lemma_spaced3(rdn, rs1n, rs2n);
        assert(r =~= mn + spaced(ts));
    } else if fmt.field_mask == 0x0d {
        lemma_spaced3(rdn, rs1n, hexs);
        assert(r =~= mn + spaced(ts));
    } else if fmt.field_mask == 0x06 {
        lemma_spaced2(rs1n, rs2n);
        assert(r =~= mn + spaced(ts));
    } else if fmt.field_mask == 0x05 {
        lemma_spaced2(rs1n, hexs);
        assert(r =~= mn + spaced(ts));
    } else if fmt.field_mask == 0x04 {
        lemma_spaced1(rs1n);
        assert(r =~= mn + spaced(ts));
    } else if fmt.field_mask == 0x01 {
        lemma_spaced1(hexs);
        assert(r =~= mn + spaced(ts));
    } else {
        assert(r =~= mn + spaced(ts));
    }
    lemma_tokens_prepend_token(mn, spaced(ts));
    assert(tokens(r) == seq![mn] + ts);
    // the rendered line is already clean
    assert forall|k: int| 0 <= k < r.len() implies (#[trigger] r[k]) != ';' by {
        if k >= mn.len() {
            assert(r[k] == spaced(ts)[k - mn.len()]);
        }
    }
    lemma_strip_comment_none(r);
    assert(r[0] == mn[0]);
    if ts.len() > 0 {
        assert(r.last() == spaced(ts).last());
    } else {
        assert(r =~= mn);
    }
    lemma_trim_noop(r);
    assert(clean_line(r) == r);
    assert(is_inst_line(r));
    // the canonical line re-encodes to the same word
    assert(tokens(r)[0] == mn);
    let g1 = nth_token(r, 1);
    let g2 = nth_token(r, 2);
    let g3 = nth_token(r, 3);
    if fmt.field_mask == 0x09 {
        assert(g1 == rdn && g2 == hexs && g3 =~= Seq::<char>::empty());
        assert(v1 is REG && v2 is IMM && v3 is EMPTY);
        assert(spec_encode_fields(mn, g1, g2, g3, m2) == Ok::<(u8, u8, u8, u32), ErrorKind>(q));
    } else if fmt.field_mask == 0x0c {
        assert(g1 == rdn && g2 == rs1n && g3 =~= Seq::<char>::empty());
        assert(v1 is REG && v2 is REG && v3 is EMPTY);
        assert(spec_encode_fields(mn, g1, g2, g3, m2) == Ok::<(u8, u8, u8, u32), ErrorKind>(q));
    } else if fmt.field_mask == 0x0e {
        assert(g1 == rdn && g2 == rs1n && g3 == rs2n);
        assert(v1 is REG && v2 is REG && v3 is REG);
        assert(spec_encode_fields(mn, g1, g2, g3, m2) == Ok::<(u8, u8, u8, u32), ErrorKind>(q));
    } else if fmt.field_mask == 0x0d {
        assert(g1 == rdn && g2 == rs1n && g3 == hexs);
        assert(v1 is REG && v2 is REG && v3 is IMM);
        assert(spec_encode_fields(mn, g1, g2, g3, m2) == Ok::<(u8, u8, u8, u32), ErrorKind>(q));
    } else if fmt.field_mask == 0x06 {
        assert(g1 == rs1n && g2 == rs2n && g3 =~= Seq::<char>::empty());
        assert(v1 is REG && v2 is REG && v3 is EMPTY);
        assert(spec_encode_fields(mn, g1, g2, g3, m2) == Ok::<(u8, u8, u8, u32), ErrorKind>(q));
    } else if fmt.field_mask == 0x05 {
        assert(g1 == rs1n && g2 == hexs && g3 =~= Seq::<char>::empty());
        assert(v1 is REG && v2 is IMM && v3 is EMPTY);
        assert(spec_encode_fields(mn, g1, g2, g3, m2) == Ok::<(u8, u8, u8, u32), ErrorKind>(q));
    } else if fmt.field_mask == 0x04 {
        assert(g1 == rs1n && g2 =~= Seq::<char>::empty() && g3 =~= Seq::<char>::empty());
        assert(v1 is REG && v2 is EMPTY && v3 is EMPTY);
        assert(spec_encode_fields(mn, g1, g2, g3, m2) == Ok::<(u8, u8, u8, u32), ErrorKind>(q));
    } else if fmt.field_mask == 0x01 {
        assert(g1 == hexs && g2 =~= Seq::<char>::empty() && g3 =~= Seq::<char>::empty());
        assert(v1 is IMM && v2 is EMPTY && v3 is EMPTY);
        assert(spec_encode_fields(mn, g1, g2, g3, m2) == Ok::<(u8, u8, u8, u32), ErrorKind>(q));
    } else {
        assert(g1 =~= Seq::<char>::empty() && g2 =~= Seq::<char>::empty() && g3
            =~= Seq::<char>::empty());
        assert(v1 is EMPTY && v2 is EMPTY && v3 is EMPTY);
        assert(spec_encode_fields(mn, g1, g2, g3, m2) == Ok::<(u8, u8, u8, u32), ErrorKind>(q));
    }
    assert(spec_line_word(r, m2) == Ok::<u64, ErrorKind>(w));
}

proof fn lemma_disasm_at_shift(a: Seq<u8>, rest: Seq<u8>, j: int)
    requires
        0 <= j <= rest.len(),
        spec_disasm_at(rest, j) is Ok,
    ensures
        spec_disasm_at(a + rest, a.len() + j) == spec_disasm_at(rest, j),
    decreases rest.len() - j,
{
    if rest.len() - j <= 0 {
    } else {
        assert(rest.len() - j >= 8);
        assert((a + rest).subrange(a.len() + j, a.len() + j + 8) =~= rest.subrange(j, j + 8));
        lemma_disasm_at_shift(a, rest, j + 8);
    }
}

proof fn lemma_output_pointwise(
    ra: Seq<(int, Seq<char>)>,
    rb: Seq<(int, Seq<char>)>,
    ma: Map<Seq<char>, u32>,
    mb: Map<Seq<char>, u32>,
)
    requires
        ra.len() == rb.len(),
        forall|i: int|
            0 <= i < ra.len() ==> spec_line_word(#[trigger] ra[i].1, ma) == spec_line_word(
                rb[i].1,
                mb,
            ),
        spec_output(ra, ma) is Ok,
    ensures
        spec_output(rb, mb) == spec_output(ra, ma),
    decreases ra.len(),
{
    if ra.len() > 0 {
        assert(forall|i: int| 0 <= i < ra.skip(1).len() ==> #[trigger] ra.skip(1)[i] == ra[i + 1]);
        assert(forall|i: int| 0 <= i < rb.skip(1).len() ==> #[trigger] rb.skip(1)[i] == rb[i + 1]);
        lemma_output_pointwise(ra.skip(1), rb.skip(1), ma, mb);
    }
}

proof fn lemma_insts_of_canonical(dis: Seq<Seq<char>>)
    requires
        forall|i: int|
            0 <= i < dis.len() ==> is_inst_line(#[trigger] dis[i]) && clean_line(dis[i]) == dis[i],
    ensures
        spec_insts(dis).len() == dis.len(),
        forall|i: int|
            0 <= i < dis.len() ==> (#[trigger] spec_insts(dis)[i]) == (i, dis[i]),
    decreases dis.len(),
{
    if dis.len() > 0 {
        assert(forall|i: int|
            0 <= i < dis.drop_last().len() ==> #[trigger] dis.drop_last()[i] == dis[i]);
        lemma_insts_of_canonical(dis.drop_last());
        assert(dis.last() == dis[dis.len() - 1]);
        assert(spec_insts_at(dis.drop_last(), 0) == spec_insts(dis.drop_last()));
    }
}

proof fn lemma_output_disassembles(
    recs: Seq<(int, Seq<char>)>,
    m: Map<Seq<char>, u32>,
    m2: Map<Seq<char>, u32>,
)
    requires
        spec_output(recs, m) is Ok,
    ensures
        ({
            let bytes = spec_output(recs, m)->Ok_0;
            let dis = spec_disassemble(bytes);
            &&& bytes.len() == 8 * recs.len()
            &&& dis is Ok
            &&& dis->Ok_0.len() == recs.len()
            &&& forall|i: int|
                0 <= i < recs.len() ==> {
                    let line = #[trigger] dis->Ok_0[i];
                    &&& is_inst_line(line)
                    &&& clean_line(line) == line
                    &&& spec_line_word(line, m2) == spec_line_word(recs[i].1, m)
                }
        }),
    decreases recs.len(),
{
    let bytes = spec_output(recs, m)->Ok_0;
    if recs.len() == 0 {
        assert(bytes =~= Seq::<u8>::empty());
    } else {
        let w0 = spec_line_word(recs[0].1, m)->Ok_0;
        let rest_bytes = spec_output(recs.skip(1), m)->Ok_0;
        assert(bytes == le_bytes(w0) + rest_bytes);
        lemma_output_disassembles(recs.skip(1), m, m2);
        lemma_render_line_reassembles(
            tokens(recs[0].1)[0],
            nth_token(recs[0].1, 1),
            nth_token(recs[0].1, 2),
            nth_token(recs[0].1, 3),
            m,
            m2,
            w0,
        );
        let r0 = spec_render_word(w0)->Ok_0;
        lemma_le_round_trip(w0);
        assert(bytes.subrange(0, 8) =~= le_bytes(w0));
        assert(le_word(bytes.subrange(0, 8)) == w0);
        lemma_disasm_at_shift(le_bytes(w0), rest_bytes, 0);
        assert(spec_disasm_at(bytes, 8) == spec_disassemble(rest_bytes));
        assert(bytes.len() - 0 >= 8);
        let dis_rest = spec_disassemble(rest_bytes)->Ok_0;
        assert(spec_disassemble(bytes) == Ok::<Seq<Seq<char>>, crate::errors::AsmError>(
            seq![r0] + dis_rest,
        ));
        assert(forall|i: int| 0 <= i < recs.skip(1).len() ==> #[trigger] recs.skip(1)[i] == recs[i
            + 1]);
        assert forall|i: int| 0 <= i < recs.len() implies {
            let line = #[trigger] (seq![r0] + dis_rest)[i];
            &&& is_inst_line(line)
            &&& clean_line(line) == line
            &&& spec_line_word(line, m2) == spec_line_word(recs[i].1, m)
        } by {
            if i > 0 {
                assert((seq![r0] + dis_rest)[i] == dis_rest[i - 1]);
            }
        }
    }
}

/// Round trip: a program that assembles disassembles to one canonical line
/// per instruction, and that canonical text assembles to the very same
/// bytes.
pub proof fn lemma_program_round_trip(lines: Seq<Seq<char>>)
    requires
        spec_assemble(lines) is Ok,
    ensures
        ({
            let bytes = spec_assemble(lines)->Ok_0;
            let dis = spec_disassemble(bytes);
            &&& dis is Ok
            &&& dis->Ok_0.len() == spec_insts(lines).len()
            &&& spec_assemble(dis->Ok_0) == spec_assemble(lines)
        }),
{
    let recs = spec_insts(lines);
    let m = spec_sym_map(lines);
    let bytes = spec_assemble(lines)->Ok_0;
    let dis = spec_disassemble(bytes)->Ok_0;
    let m2 = spec_sym_map(dis);
    lemma_output_disassembles(recs, m, m2);
    lemma_insts_of_canonical(dis);
    assert(forall|i: int|
        0 <= i < spec_insts(dis).len() ==> spec_line_word(
            (#[trigger] spec_insts(dis)[i]).1,
            m2,
        ) == spec_line_word(recs[i].1, m));
    lemma_output_pointwise(recs, spec_insts(dis), m, m2);
}

/// Round trip for a single line: a one-line program that assembles
/// disassembles to its canonical form — one line when the input is an
/// instruction line — and the canonical form assembles to the same bytes.
pub proof fn lemma_line_round_trip(line: Seq<char>)
    requires
        spec_assemble(seq![line]) is Ok,
    ensures
        ({
            let bytes = spec_assemble(seq![line])->Ok_0;
            &&& spec_disassemble(bytes) is Ok
            &&& (is_inst_line(line) ==> spec_disassemble(bytes)->Ok_0.len() == 1)
            &&& spec_assemble(spec_disassemble(bytes)->Ok_0) == spec_assemble(seq![line])
        }),
{
    lemma_program_round_trip(seq![line]);
    assert(seq![line].drop_last() =~= Seq::<Seq<char>>::empty());
    assert(seq![line].last() == line);
    assert(spec_insts_at(Seq::<Seq<char>>::empty(), 0) =~= Seq::<(int, Seq<char>)>::empty());
    if is_inst_line(line) {
        assert(spec_insts(seq![line]) =~= seq![(0int, clean_line(line))]);
    }
}

} // verus!

