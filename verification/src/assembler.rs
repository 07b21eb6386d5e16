//! The assembler pipeline: a scan phase builds the symbol table over the
//! whole source (labels do not advance the address counter; instructions
//! advance it by the fixed word size of 8), and only then an encode phase
//! turns every instruction line into one 64-bit word, emitted in source
//! order as little-endian bytes.

use vstd::prelude::*;

use crate::codec::le_bytes;
use crate::codec::push_word_le;
use crate::codec::spec_construct;
use crate::codec::word_imm;
use crate::codec::word_mask;
use crate::codec::word_group;
use crate::codec::word_opcode;
use crate::codec::word_rd;
use crate::codec::word_rs1;
use crate::codec::word_rs2;
use crate::codec::CodeDescriptor;
use crate::errors::AsmError;
use crate::errors::ErrorKind;
use crate::isa::find_format;
use crate::isa::inst_table_vec;
use crate::isa::MuAsm;
use crate::parser::spec_encode_fields;
use crate::parser::spec_parse_inst;
use crate::parser::spec_word_of;
use crate::parser::InstructionDescriptor;
use crate::parser::InstView;
use crate::symtab::SymbolTable;
use crate::text::lemma_tokens_nonempty;
use crate::text::lemma_trim_edges;
use crate::text::strip_comment;
use crate::text::strip_comment_str;
use crate::text::tokens;
use crate::text::trim;
use crate::text::trim_str;

verus! {

/// A source line with its comment stripped and its ends trimmed: what the
/// scan phase actually reads.
pub open spec fn clean_line(l: Seq<char>) -> Seq<char> {
    trim(strip_comment(l))
}

/// A line that defines a label: nonempty after cleaning and starting with
/// the sigil.
pub open spec fn is_label_line(l: Seq<char>) -> bool {
    clean_line(l).len() > 0 && clean_line(l)[0] == '@'
}

/// A line that carries an instruction: nonempty after cleaning and not a
/// label.
pub open spec fn is_inst_line(l: Seq<char>) -> bool {
    clean_line(l).len() > 0 && clean_line(l)[0] != '@'
}

/// How many instruction lines a program holds.
pub open spec fn inst_count(lines: Seq<Seq<char>>) -> int
    decreases lines.len(),
{
    if lines.len() == 0 {
        0
    } else {
        inst_count(lines.drop_last()) + if is_inst_line(lines.last()) {
            1int
        } else {
            0int
        }
    }
}

pub proof fn lemma_inst_count_bounds(lines: Seq<Seq<char>>)
    ensures
        0 <= inst_count(lines) <= lines.len(),
    decreases lines.len(),
{
    if lines.len() > 0 {
        lemma_inst_count_bounds(lines.drop_last());
    }
}

/// The symbol table a program defines when its first instruction sits at
/// address `base`: each label line maps its cleaned text to the address of
/// the next instruction; a later definition of a name overwrites an earlier
/// one; labels occupy no address.
pub open spec fn spec_sym_map_at(lines: Seq<Seq<char>>, base: int) -> Map<Seq<char>, u32>
    decreases lines.len(),
{
    if lines.len() == 0 {
        Map::empty()
    } else if is_label_line(lines.last()) {
        spec_sym_map_at(lines.drop_last(), base).insert(
            clean_line(lines.last()),
            (base + 8 * inst_count(lines.drop_last())) as u32,
        )
    } else {
        spec_sym_map_at(lines.drop_last(), base)
    }
}

/// The symbol table of a whole program.
pub open spec fn spec_sym_map(lines: Seq<Seq<char>>) -> Map<Seq<char>, u32> {
    spec_sym_map_at(lines, 0)
}

/// The instruction lines of a program, each as (line index, cleaned text),
/// with line indices counted from `ibase`.
pub open spec fn spec_insts_at(lines: Seq<Seq<char>>, ibase: int) -> Seq<(int, Seq<char>)>
    decreases lines.len(),
{
    if lines.len() == 0 {
        seq![]
    } else {
        spec_insts_at(lines.drop_last(), ibase) + if is_inst_line(lines.last()) {
            seq![(ibase + lines.len() - 1, clean_line(lines.last()))]
        } else {
            seq![]
        }
    }
}

/// The instruction lines of a whole program.
pub open spec fn spec_insts(lines: Seq<Seq<char>>) -> Seq<(int, Seq<char>)> {
    spec_insts_at(lines, 0)
}

/// The `i`-th blank-separated token of `c`, or the empty string when there
/// is none.
pub open spec fn nth_token(c: Seq<char>, i: int) -> Seq<char> {
    if tokens(c).len() > i {
        tokens(c)[i]
    } else {
        Seq::empty()
    }
}

/// The word one cleaned instruction line encodes to under symbol table `m`.
pub open spec fn spec_line_word(c: Seq<char>, m: Map<Seq<char>, u32>) -> Result<u64, ErrorKind> {
    spec_word_of(tokens(c)[0], nth_token(c, 1), nth_token(c, 2), nth_token(c, 3), m)
}

/// The bytes the encode phase emits for instruction records `recs` under
/// the completed symbol table `m`: the words' little-endian bytes in source
/// order, or the first error together with its 1-based line number.
pub open spec fn spec_output(recs: Seq<(int, Seq<char>)>, m: Map<Seq<char>, u32>) -> Result<
    Seq<u8>,
    AsmError,
>
    decreases recs.len(),
{
    if recs.len() == 0 {
        Ok(seq![])
    } else {
        match spec_line_word(recs[0].1, m) {
            Err(k) => Err(AsmError { kind: k, pos: (recs[0].0 + 1) as usize }),
            Ok(w) => match spec_output(recs.skip(1), m) {
                Err(e) => Err(e),
                Ok(rest) => Ok(le_bytes(w) + rest),
            },
        }
    }
}

/// What assembling a program yields: the symbol table is built over the
/// whole program first, and every instruction is then encoded against that
/// one completed table.
pub open spec fn spec_assemble(lines: Seq<Seq<char>>) -> Result<Seq<u8>, AsmError> {
    spec_output(spec_insts(lines), spec_sym_map(lines))
}

impl CodeDescriptor {
    /// Encodes one parsed instruction against the symbol table: resolves
    /// and validates its operands, then packs the word.
    pub fn from_inst(inst: &InstructionDescriptor, symbol_map: &SymbolTable) -> (r: Result<
        CodeDescriptor,
        ErrorKind,
    >)
        ensures
            ({
                let sres = spec_word_of(
                    inst@.mnemonic,
                    inst@.field1,
                    inst@.field2,
                    inst@.field3,
                    symbol_map@,
                );
                match r {
                    Ok(cd) => sres == Ok::<u64, ErrorKind>(cd.code) && cd.imm == word_imm(cd.code)
                        && cd.rs2 == word_rs2(cd.code) && cd.rs1 == word_rs1(cd.code) && cd.rd
                        == word_rd(cd.code) && cd.opcode == word_opcode(cd.code) && cd.opcode_group
                        == word_group(cd.code) && cd.fields == word_mask(cd.code),
                    Err(e) => sres == Err::<u64, ErrorKind>(e),
                }
            }),
    {
        let table = inst_table_vec();
        let fmt = match find_format(&table, inst.mnemonic.as_str()) {
            None => {
                return Err(ErrorKind::UnknownMnemonic);
            },
            Some(f) => f,
        };
        let low = match inst.encode_fields(symbol_map) {
            Err(e) => {
                return Err(e);
            },
            Ok(l) => l,
        };
        let code: u64 = low | (((fmt.opcode as u64) & 0xff) << 47) | (((fmt.opcode_group as u64)
            & 0x1f) << 55) | (((fmt.field_mask as u64) & 0xf) << 60);
        proof {
            assert(forall|a: u64, b: u64, c: u64, d: u64, oc: u64, og: u64, fm: u64|
                spec_construct(a, b, c, d, 0, 0, 0) | ((oc & 0xff) << 47) | ((og & 0x1f) << 55) | (
                (fm & 0xf) << 60) == #[trigger] spec_construct(a, b, c, d, oc, og, fm))
                by (bit_vector);
        }
        Ok(CodeDescriptor::new(&code))
    }
}

impl MuAsm {
    /// Encodes one parsed instruction to its 64-bit word.
    pub fn assemble_instruction(&self, inst: &InstructionDescriptor, symbol_map: &SymbolTable) -> (r:
        Result<u64, ErrorKind>)
        ensures
            r == spec_word_of(
                inst@.mnemonic,
                inst@.field1,
                inst@.field2,
                inst@.field3,
                symbol_map@,
            ),
    {
        match CodeDescriptor::from_inst(inst, symbol_map) {
            Ok(cd) => Ok(cd.code),
            Err(e) => Err(e),
        }
    }

    /// Assembles a whole program: scans all lines to build the symbol
    /// table, then encodes every instruction line against it. Forward and
    /// backward label references are equally legal.
    pub fn assemble(&self, lines: &Vec<String>) -> (r: Result<Vec<u8>, AsmError>)
        requires
            lines@.len() <= 0x0fffffff,
        ensures
            ({
                let sres = spec_assemble(lines@.map_values(|l: String| l@));
                match r {
                    Ok(bytes) => sres is Ok && bytes@ == sres->Ok_0,
                    Err(e) => sres == Err::<Seq<u8>, AsmError>(e),
                }
            }),
    {
        let ghost lns = lines@.map_values(|l: String| l@);
        let n = lines.len();
        let mut symtab = SymbolTable::new();
        let mut insts: Vec<InstructionDescriptor> = Vec::new();
        let mut linenos: Vec<usize> = Vec::new();
        let mut addr: u32 = 0;
        let mut i: usize = 0;
        proof {
            assert(lns.take(0) =~= Seq::<Seq<char>>::empty());
        }
        while i < n
            invariant
                0 <= i <= n,
                n == lines.len(),
                n <= 0x0fffffff,
                lns == lines@.map_values(|l: String| l@),
                symtab@ == spec_sym_map(lns.take(i as int)),
                addr == 8 * inst_count(lns.take(i as int)),
                insts@.len() == linenos@.len(),
                insts@.len() == spec_insts(lns.take(i as int)).len(),
                forall|j: int|
                    0 <= j < insts@.len() ==> {
                        let rec = spec_insts(lns.take(i as int))[j];
                        (#[trigger] linenos@[j]) == rec.0 && linenos@[j] < i && insts@[j]@
                            == (InstView { address: insts@[j]@.address, ..spec_parse_inst(rec.1) })
                    },
            decreases n - i,
        {
            proof {
                lemma_inst_count_bounds(lns.take(i as int));
                assert(lns.take(i + 1).drop_last() =~= lns.take(i as int));
                assert(lns.take(i + 1).last() == lns[i as int]);
            }
            let stripped = strip_comment_str(lines[i].as_str());
            let line = trim_str(stripped);
            proof {
                assert(line@ == clean_line(lns[i as int]));
                lemma_trim_edges(strip_comment(lns[i as int]));
            }
            let ln = line.unicode_len();
            if ln == 0 {
                // blank or comment-only line
                proof {
                    assert(spec_insts(lns.take(i + 1)) =~= spec_insts(lns.take(i as int)));
                }
            } else if line.get_char(0) == '@' {
                symtab.insert(String::from_str(line), addr);
                proof {
                    assert(spec_insts(lns.take(i + 1)) =~= spec_insts(lns.take(i as int)));
                }
            } else {
                proof {
                    lemma_tokens_nonempty(line@);
                }
                let mut inst = self.parse_instruction(line);
                inst.address = addr;
                let ghost old_recs = spec_insts(lns.take(i as int));
                insts.push(inst);
                linenos.push(i);
                addr += 8;
                proof {
                    assert(spec_insts(lns.take(i + 1)) =~= old_recs.push(
                        (i as int, clean_line(lns[i as int])),
                    ));
                }
            }
            i += 1;
        }
        proof {
            assert(lns.take(n as int) =~= lns);
        }
        let ghost recs = spec_insts(lns);
        let ghost m = spec_sym_map(lns);
        let k = insts.len();
        let mut out: Vec<u8> = Vec::new();
        let mut j: usize = 0;
        proof {
            assert(recs.skip(0) =~= recs);
        }
        while j < k
            invariant
                0 <= j <= k,
                k == insts.len(),
                k == linenos.len(),
                k == recs.len(),
                lns == lines@.map_values(|l: String| l@),
                recs == spec_insts(lns),
                m == spec_sym_map(lns),
                symtab@ == m,
                forall|q: int|
                    0 <= q < k ==> {
                        let rec = recs[q];
                        (#[trigger] linenos@[q]) == rec.0 && linenos@[q] < n && insts@[q]@
                            == (InstView { address: insts@[q]@.address, ..spec_parse_inst(rec.1) })
                    },
                n <= 0x0fffffff,
                match spec_output(recs.skip(j as int), m) {
                    Ok(rest) => spec_output(recs, m) == Ok::<Seq<u8>, AsmError>(out@ + rest),
                    Err(e) => spec_output(recs, m) == Err::<Seq<u8>, AsmError>(e),
                },
            decreases k - j,
        {
            proof {
                assert(recs.skip(j as int).skip(1) =~= recs.skip(j + 1));
                assert(recs.skip(j as int)[0] == recs[j as int]);
                assert(linenos@[j as int] == recs[j as int].0);
            }
            let inst = &insts[j];
            let ghost rec = recs[j as int];
            proof {
                assert(inst@.mnemonic == tokens(rec.1)[0]);
                assert(inst@.field1 == nth_token(rec.1, 1));
                assert(inst@.field2 == nth_token(rec.1, 2));
                assert(inst@.field3 == nth_token(rec.1, 3));
            }
            match self.assemble_instruction(inst, &symtab) {
                Err(e) => {
                    proof {
                        assert(spec_line_word(rec.1, m) == Err::<u64, ErrorKind>(e));
                        assert(spec_output(recs.skip(j as int), m) == Err::<Seq<u8>, AsmError>(
                            AsmError { kind: e, pos: (rec.0 + 1) as usize },
                        ));
                        assert(linenos@[j as int] + 1 == (rec.0 + 1) as usize);
                    }
                    return Err(AsmError { kind: e, pos: linenos[j] + 1 });
                },
                Ok(w) => {
                    proof {
                        assert(spec_line_word(rec.1, m) == Ok::<u64, ErrorKind>(w));
                    }
                    let ghost old_out = out@;
                    push_word_le(&mut out, w);
                    proof {
                        let rest1 = spec_output(recs.skip(j + 1), m);
                        if rest1 is Ok {
                            assert(old_out + (le_bytes(w) + rest1->Ok_0) =~= (old_out + le_bytes(w))
                                + rest1->Ok_0);
                        }
                    }
                },
            }
            j += 1;
        }
        proof {
            assert(recs.skip(k as int) =~= Seq::<(int, Seq<char>)>::empty());
            assert(out@ + Seq::<u8>::empty() =~= out@);
        }
        Ok(out)
    }
}


proof fn lemma_no_inst_lines(b: Seq<Seq<char>>, ibase: int)
    requires
        forall|i: int| 0 <= i < b.len() ==> !is_inst_line(#[trigger] b[i]),
    ensures
        spec_insts_at(b, ibase) == Seq::<(int, Seq<char>)>::empty(),
        inst_count(b) == 0,
    decreases b.len(),
{
    if b.len() > 0 {
        assert(forall|i: int| 0 <= i < b.drop_last().len() ==> b.drop_last()[i] == b[i]);
        lemma_no_inst_lines(b.drop_last(), ibase);
        assert(b.last() == b[b.len() - 1]);
        assert(spec_insts_at(b, ibase) =~= Seq::<(int, Seq<char>)>::empty());
    }
}

proof fn lemma_insts_at_concat(a: Seq<Seq<char>>, b: Seq<Seq<char>>, ibase: int)
    ensures
        spec_insts_at(a + b, ibase) == spec_insts_at(a, ibase) + spec_insts_at(b, ibase + a.len()),
        inst_count(a + b) == inst_count(a) + inst_count(b),
    decreases b.len(),
{
    if b.len() == 0 {
        assert(a + b =~= a);
        assert(spec_insts_at(b, ibase + a.len()) == Seq::<(int, Seq<char>)>::empty());
        assert(spec_insts_at(a, ibase) + spec_insts_at(b, ibase + a.len()) =~= spec_insts_at(
            a,
            ibase,
        ));
    } else {
        assert((a + b).drop_last() =~= a + b.drop_last());
        assert((a + b).last() == b.last());
        lemma_insts_at_concat(a, b.drop_last(), ibase);
        assert(spec_insts_at(a + b, ibase) =~= spec_insts_at(a, ibase) + spec_insts_at(
            b,
            ibase + a.len(),
        ));
    }
}

proof fn lemma_sym_map_at_concat(a: Seq<Seq<char>>, b: Seq<Seq<char>>, base: int)
    ensures
        spec_sym_map_at(a + b, base) == spec_sym_map_at(a, base).union_prefer_right(
            spec_sym_map_at(b, base + 8 * inst_count(a)),
        ),
    decreases b.len(),
{
    if b.len() == 0 {
        assert(a + b =~= a);
        assert(spec_sym_map_at(b, base + 8 * inst_count(a)) == Map::<Seq<char>, u32>::empty());
        assert(spec_sym_map_at(a, base).union_prefer_right(Map::<Seq<char>, u32>::empty())
            =~= spec_sym_map_at(a, base));
    } else {
        assert((a + b).drop_last() =~= a + b.drop_last());
        assert((a + b).last() == b.last());
        lemma_sym_map_at_concat(a, b.drop_last(), base);
        lemma_insts_at_concat(a, b.drop_last(), base);
        if is_label_line(b.last()) {
            assert(spec_sym_map_at(a + b, base) =~= spec_sym_map_at(a, base).union_prefer_right(
                spec_sym_map_at(b, base + 8 * inst_count(a)),
            ));
        } else {
            assert(spec_sym_map_at(a + b, base) =~= spec_sym_map_at(a, base).union_prefer_right(
                spec_sym_map_at(b, base + 8 * inst_count(a)),
            ));
        }
    }
}

proof fn lemma_sym_map_dom(b: Seq<Seq<char>>, base: int)
    ensures
        forall|k: Seq<char>|
            #[trigger] spec_sym_map_at(b, base).dom().contains(k) ==> exists|i: int|
                0 <= i < b.len() && is_label_line(#[trigger] b[i]) && clean_line(b[i]) == k,
    decreases b.len(),
{
    if b.len() > 0 {
        assert(forall|i: int| 0 <= i < b.drop_last().len() ==> b.drop_last()[i] == b[i]);
        lemma_sym_map_dom(b.drop_last(), base);
        assert forall|k: Seq<char>| #[trigger]
            spec_sym_map_at(b, base).dom().contains(k) implies exists|i: int|
            0 <= i < b.len() && is_label_line(#[trigger] b[i]) && clean_line(b[i]) == k by {
            if is_label_line(b.last()) && k == clean_line(b.last()) {
                assert(is_label_line(b[b.len() - 1]) && clean_line(b[b.len() - 1]) == k);
            } else {
                assert(spec_sym_map_at(b.drop_last(), base).dom().contains(k));
            }
        }
    }
}

/// Label resolution is independent of where a label line stands among lines
/// that carry no instructions: moving it across blank or comment-only lines
/// (or other labels with different names) leaves the assembled output — the
/// whole symbol table and every encoded word — unchanged, because the table
/// is completed before any instruction is encoded and labels occupy no
/// address.
pub proof fn lemma_label_position_independent(
    pre: Seq<Seq<char>>,
    mid: Seq<Seq<char>>,
    post: Seq<Seq<char>>,
    lbl: Seq<char>,
)
    requires
        is_label_line(lbl),
        forall|i: int|
            0 <= i < mid.len() ==> !is_inst_line(#[trigger] mid[i]) && !(is_label_line(mid[i])
                && clean_line(mid[i]) == clean_line(lbl)),
    ensures
        spec_assemble(pre + seq![lbl] + mid + post) == spec_assemble(pre + mid + seq![lbl] + post),
{
    let el = seq![lbl];
    let l1 = pre + el + mid + post;
    let l2 = pre + mid + el + post;
    assert(!is_inst_line(lbl));
    assert(forall|i: int| 0 <= i < el.len() ==> !is_inst_line(#[trigger] el[i]));
    lemma_no_inst_lines(el, 0);
    lemma_no_inst_lines(mid, 0);
    // the instruction records agree, line indices included
    lemma_insts_at_concat(pre, el, 0);
    lemma_insts_at_concat(pre + el, mid, 0);
    lemma_insts_at_concat(pre + el + mid, post, 0);
    lemma_insts_at_concat(pre, mid, 0);
    lemma_insts_at_concat(pre + mid, el, 0);
    lemma_insts_at_concat(pre + mid + el, post, 0);
    lemma_no_inst_lines(el, pre.len() as int);
    lemma_no_inst_lines(el, (pre + mid).len() as int);
    lemma_no_inst_lines(mid, (pre + el).len() as int);
    lemma_no_inst_lines(mid, pre.len() as int);
    assert(spec_insts(l1) =~= spec_insts_at(pre, 0) + spec_insts_at(
        post,
        (pre + el + mid).len() as int,
    ));
    assert(spec_insts(l2) =~= spec_insts_at(pre, 0) + spec_insts_at(
        post,
        (pre + mid + el).len() as int,
    ));
    assert((pre + el + mid).len() == (pre + mid + el).len());
    assert(spec_insts(l1) == spec_insts(l2));
    // the symbol tables agree: the label's address is fixed by the
    // instructions before it, and no name in `mid` collides with it
    lemma_sym_map_at_concat(pre, el, 0);
    lemma_sym_map_at_concat(pre + el, mid, 0);
    lemma_sym_map_at_concat(pre + el + mid, post, 0);
    lemma_sym_map_at_concat(pre, mid, 0);
    lemma_sym_map_at_concat(pre + mid, el, 0);
    lemma_sym_map_at_concat(pre + mid + el, post, 0);
    let b = 8 * inst_count(pre);
    let mpre = spec_sym_map_at(pre, 0);
    let mmid = spec_sym_map_at(mid, b);
    let sgl = spec_sym_map_at(el, b);
    assert(inst_count(pre + el) == inst_count(pre));
    assert(inst_count(pre + el + mid) == inst_count(pre));
    assert(inst_count(pre + mid) == inst_count(pre));
    assert(inst_count(pre + mid + el) == inst_count(pre));
    assert(el.drop_last() =~= Seq::<Seq<char>>::empty());
    assert(el.last() == lbl);
    assert(spec_sym_map_at(Seq::<Seq<char>>::empty(), b) == Map::<Seq<char>, u32>::empty());
    assert(sgl == Map::<Seq<char>, u32>::empty().insert(clean_line(lbl), b as u32));
    lemma_sym_map_dom(mid, b);
    assert(!mmid.dom().contains(clean_line(lbl)));
    assert(spec_sym_map(l1) == mpre.union_prefer_right(sgl).union_prefer_right(
        mmid,
    ).union_prefer_right(spec_sym_map_at(post, b)));
    assert(spec_sym_map(l2) == mpre.union_prefer_right(mmid).union_prefer_right(
        sgl,
    ).union_prefer_right(spec_sym_map_at(post, b)));
    assert(mpre.union_prefer_right(sgl).union_prefer_right(mmid) =~= mpre.union_prefer_right(
        mmid,
    ).union_prefer_right(sgl));
    assert(spec_sym_map(l1) == spec_sym_map(l2));
}

} // verus!
