//! The instruction-set model: the ISA table (mnemonic, field mask, opcode
//! group, opcode), the register table, and the lookup functions both
//! pipelines share. The tables are built once and never mutated.

use vstd::prelude::*;

use crate::errors::ErrorKind;
use crate::numbers::hex_digit_char;
use crate::text::is_blank;
use crate::text::str_eq;

verus! {

/// Spec-level image of one ISA table entry.
pub struct FormatView {
    pub mnemonic: Seq<char>,
    pub field_mask: u8,
    pub opcode_group: u8,
    pub opcode: u8,
}

/// One instruction definition: its mnemonic and the (field mask, opcode
/// group, opcode) triple that identifies its encoding.
pub struct InstructionFormat {
    pub mnemonic: String,
    pub field_mask: u8,
    pub opcode_group: u8,
    pub opcode: u8,
}

impl View for InstructionFormat {
    type V = FormatView;

    open spec fn view(&self) -> FormatView {
        FormatView {
            mnemonic: self.mnemonic@,
            field_mask: self.field_mask,
            opcode_group: self.opcode_group,
            opcode: self.opcode,
        }
    }
}

/// Number of entries in the ISA table.
pub const INST_COUNT: usize = 24;

/// The fixed instruction table, entry by entry.
pub open spec fn spec_inst_entry(i: int) -> FormatView {
    if i == 0 {
        FormatView { mnemonic: "SET"@, field_mask: 0x09, opcode_group: 0x00, opcode: 0x01 }
    } else if i == 1 {
        FormatView { mnemonic: "SETH"@, field_mask: 0x09, opcode_group: 0x00, opcode: 0x02 }
    } else if i == 2 {
        FormatView { mnemonic: "MOV"@, field_mask: 0x0c, opcode_group: 0x00, opcode: 0x03 }
    } else if i == 3 {
        FormatView { mnemonic: "LD1"@, field_mask: 0x0c, opcode_group: 0x01, opcode: 0x01 }
    } else if i == 4 {
        FormatView { mnemonic: "LD2"@, field_mask: 0x0c, opcode_group: 0x01, opcode: 0x02 }
    } else if i == 5 {
        FormatView { mnemonic: "LD4"@, field_mask: 0x0c, opcode_group: 0x01, opcode: 0x03 }
    } else if i == 6 {
        FormatView { mnemonic: "LD8"@, field_mask: 0x0c, opcode_group: 0x01, opcode: 0x04 }
    } else if i == 7 {
        FormatView { mnemonic: "ST1"@, field_mask: 0x0c, opcode_group: 0x03, opcode: 0x01 }
    } else if i == 8 {
        FormatView { mnemonic: "ST2"@, field_mask: 0x0c, opcode_group: 0x03, opcode: 0x02 }
    } else if i == 9 {
        FormatView { mnemonic: "ST4"@, field_mask: 0x0c, opcode_group: 0x03, opcode: 0x03 }
    } else if i == 10 {
        FormatView { mnemonic: "ST8"@, field_mask: 0x0c, opcode_group: 0x03, opcode: 0x04 }
    } else if i == 11 {
        FormatView { mnemonic: "ADD"@, field_mask: 0x0e, opcode_group: 0x05, opcode: 0x01 }
    } else if i == 12 {
        FormatView { mnemonic: "SUB"@, field_mask: 0x0e, opcode_group: 0x05, opcode: 0x02 }
    } else if i == 13 {
        FormatView { mnemonic: "MUL"@, field_mask: 0x0e, opcode_group: 0x05, opcode: 0x03 }
    } else if i == 14 {
        FormatView { mnemonic: "DIV"@, field_mask: 0x0e, opcode_group: 0x05, opcode: 0x04 }
    } else if i == 15 {
        FormatView { mnemonic: "GEQ"@, field_mask: 0x06, opcode_group: 0x07, opcode: 0x01 }
    } else if i == 16 {
        FormatView { mnemonic: "GRE"@, field_mask: 0x06, opcode_group: 0x07, opcode: 0x02 }
    } else if i == 17 {
        FormatView { mnemonic: "EQU"@, field_mask: 0x06, opcode_group: 0x07, opcode: 0x03 }
    } else if i == 18 {
        FormatView { mnemonic: "LEQ"@, field_mask: 0x06, opcode_group: 0x07, opcode: 0x04 }
    } else if i == 19 {
        FormatView { mnemonic: "LES"@, field_mask: 0x06, opcode_group: 0x07, opcode: 0x05 }
    } else if i == 20 {
        FormatView { mnemonic: "J"@, field_mask: 0x01, opcode_group: 0x09, opcode: 0x01 }
    } else if i == 21 {
        FormatView { mnemonic: "CJ"@, field_mask: 0x04, opcode_group: 0x09, opcode: 0x02 }
    } else if i == 22 {
        FormatView { mnemonic: "CALL"@, field_mask: 0x04, opcode_group: 0x11, opcode: 0x01 }
    } else {
        FormatView { mnemonic: "RET"@, field_mask: 0x00, opcode_group: 0x11, opcode: 0x02 }
    }
}

/// The fixed instruction table as a sequence.
pub open spec fn spec_inst_table() -> Seq<FormatView> {
    Seq::new(INST_COUNT as nat, |i: int| spec_inst_entry(i))
}

fn push_format(
    v: &mut Vec<InstructionFormat>,
    mnemonic: &str,
    field_mask: u8,
    opcode_group: u8,
    opcode: u8,
)
    ensures
        final(v)@.map_values(|f: InstructionFormat| f@) == old(v)@.map_values(
            |f: InstructionFormat| f@,
        ).push((FormatView { mnemonic: mnemonic@, field_mask, opcode_group, opcode })),
{
    v.push(
        InstructionFormat {
            mnemonic: String::from_str(mnemonic),
            field_mask,
            opcode_group,
            opcode,
        },
    );
    proof {
        assert(v@.map_values(|f: InstructionFormat| f@) =~= old(v)@.map_values(
            |f: InstructionFormat| f@,
        ).push(FormatView { mnemonic: mnemonic@, field_mask, opcode_group, opcode }));
    }
}

/// Both pipelines' shared driver; it owns the ISA table.
pub struct MuAsm {
    pub(crate) isa_table: Vec<InstructionFormat>,
}

impl MuAsm {
    /// The table it carries is exactly the fixed instruction table.
    #[verifier::type_invariant]
    pub(crate) open spec fn wf(&self) -> bool {
        self.isa_table@.map_values(|f: InstructionFormat| f@) == spec_inst_table()
    }

    /// Builds the driver with the fixed ISA table.
    pub fn new() -> MuAsm {
        MuAsm { isa_table: inst_table_vec() }
    }
}

/// Builds the fixed ISA table.
pub(crate) fn inst_table_vec() -> (r: Vec<InstructionFormat>)
    ensures
        r@.map_values(|f: InstructionFormat| f@) == spec_inst_table(),
{
    let mut v: Vec<InstructionFormat> = Vec::new();
    push_format(&mut v, "SET", 0x09, 0x00, 0x01);
    push_format(&mut v, "SETH", 0x09, 0x00, 0x02);
    push_format(&mut v, "MOV", 0x0c, 0x00, 0x03);
    push_format(&mut v, "LD1", 0x0c, 0x01, 0x01);
    push_format(&mut v, "LD2", 0x0c, 0x01, 0x02);
    push_format(&mut v, "LD4", 0x0c, 0x01, 0x03);
    push_format(&mut v, "LD8", 0x0c, 0x01, 0x04);
    push_format(&mut v, "ST1", 0x0c, 0x03, 0x01);
    push_format(&mut v, "ST2", 0x0c, 0x03, 0x02);
    push_format(&mut v, "ST4", 0x0c, 0x03, 0x03);
    push_format(&mut v, "ST8", 0x0c, 0x03, 0x04);
    push_format(&mut v, "ADD", 0x0e, 0x05, 0x01);
    push_format(&mut v, "SUB", 0x0e, 0x05, 0x02);
    push_format(&mut v, "MUL", 0x0e, 0x05, 0x03);
    push_format(&mut v, "DIV", 0x0e, 0x05, 0x04);
    push_format(&mut v, "GEQ", 0x06, 0x07, 0x01);
    push_format(&mut v, "GRE", 0x06, 0x07, 0x02);
    push_format(&mut v, "EQU", 0x06, 0x07, 0x03);
    push_format(&mut v, "LEQ", 0x06, 0x07, 0x04);
    push_format(&mut v, "LES", 0x06, 0x07, 0x05);
    push_format(&mut v, "J", 0x01, 0x09, 0x01);
    push_format(&mut v, "CJ", 0x04, 0x09, 0x02);
    push_format(&mut v, "CALL", 0x04, 0x11, 0x01);
    push_format(&mut v, "RET", 0x00, 0x11, 0x02);
    proof {
        assert(v@.map_values(|f: InstructionFormat| f@) =~= spec_inst_table());
    }
    v
}

/// The first table entry carrying `name` as its mnemonic.
pub open spec fn spec_find_format(t: Seq<FormatView>, name: Seq<char>) -> Option<FormatView>
    decreases t.len(),
{
    if t.len() == 0 {
        None
    } else if t[0].mnemonic == name {
        Some(t[0])
    } else {
        spec_find_format(t.skip(1), name)
    }
}

/// Finds the first entry of `table` carrying `name` as its mnemonic.
pub fn find_format<'a>(table: &'a Vec<InstructionFormat>, name: &str) -> (r: Option<
    &'a InstructionFormat,
>)
    ensures
        ({
            let t = table@.map_values(|f: InstructionFormat| f@);
            match r {
                Some(f) => spec_find_format(t, name@) == Some(f@),
                None => spec_find_format(t, name@) is None,
            }
        }),
{
    let ghost t = table@.map_values(|f: InstructionFormat| f@);
    let n = table.len();
    let mut i: usize = 0;
    proof {
        assert(t.skip(0) =~= t);
    }
    while i < n
        invariant
            0 <= i <= n,
            n == table.len(),
            t == table@.map_values(|f: InstructionFormat| f@),
            spec_find_format(t, name@) == spec_find_format(t.skip(i as int), name@),
        decreases n - i,
    {
        if str_eq(name, table[i].mnemonic.as_str()) {
            return Some(&table[i]);
        }
        proof {
            assert(t.skip(i as int).skip(1) =~= t.skip(i + 1));
        }
        i += 1;
    }
    None
}

impl MuAsm {
    /// Finds the instruction definition for a mnemonic (first match).
    pub fn lookup_by_mnemonic<'a>(&'a self, name: &str) -> (r: Option<&'a InstructionFormat>)
        ensures
            match r {
                Some(f) => spec_find_format(spec_inst_table(), name@) == Some(f@),
                None => spec_find_format(spec_inst_table(), name@) is None,
            },
    {
        proof {
            use_type_invariant(&*self);
        }
        find_format(&self.isa_table, name)
    }
}

/// Every entry the mnemonic lookup can yield sits in the table it searched.
pub proof fn lemma_find_format_in_table(t: Seq<FormatView>, name: Seq<char>)
    requires
        spec_find_format(t, name) is Some,
    ensures
        exists|i: int| 0 <= i < t.len() && t[i] == spec_find_format(t, name)->Some_0,
        spec_find_format(t, name)->Some_0.mnemonic == name,
    decreases t.len(),
{
    if t.len() > 0 {
        if t[0].mnemonic == name {
            assert(t[0] == spec_find_format(t, name)->Some_0);
        } else {
            lemma_find_format_in_table(t.skip(1), name);
            let j = choose|j: int|
                0 <= j < t.skip(1).len() && t.skip(1)[j] == spec_find_format(
                    t.skip(1),
                    name,
                )->Some_0;
            assert(t[j + 1] == spec_find_format(t, name)->Some_0);
        }
    }
}

/// Whether an entry carries the given encoding triple.
pub open spec fn spec_triple_matches(
    f: FormatView,
    field_mask: u8,
    opcode_group: u8,
    opcode: u8,
) -> bool {
    f.field_mask == field_mask && f.opcode_group == opcode_group && f.opcode == opcode
}

/// How many table entries carry the given encoding triple.
pub open spec fn spec_encoding_matches(
    t: Seq<FormatView>,
    field_mask: u8,
    opcode_group: u8,
    opcode: u8,
) -> int
    decreases t.len(),
{
    if t.len() == 0 {
        0
    } else {
        spec_encoding_matches(t.drop_last(), field_mask, opcode_group, opcode) + if
        spec_triple_matches(t.last(), field_mask, opcode_group, opcode) {
            1int
        } else {
            0int
        }
    }
}

/// The first table entry carrying the given encoding triple.
pub open spec fn spec_first_triple(
    t: Seq<FormatView>,
    field_mask: u8,
    opcode_group: u8,
    opcode: u8,
) -> Option<FormatView>
    decreases t.len(),
{
    if t.len() == 0 {
        None
    } else {
        match spec_first_triple(t.drop_last(), field_mask, opcode_group, opcode) {
            Some(f) => Some(f),
            None => if spec_triple_matches(t.last(), field_mask, opcode_group, opcode) {
                Some(t.last())
            } else {
                None
            },
        }
    }
}

/// What a full scan of table `t` for an encoding triple yields: the unique
/// matching mnemonic, or the error that says why there is none.
pub open spec fn spec_scan_encoding(
    t: Seq<FormatView>,
    field_mask: u8,
    opcode_group: u8,
    opcode: u8,
) -> Result<Seq<char>, ErrorKind> {
    if spec_encoding_matches(t, field_mask, opcode_group, opcode) == 0 {
        Err(ErrorKind::UnknownEncoding)
    } else if spec_encoding_matches(t, field_mask, opcode_group, opcode) > 1 {
        Err(ErrorKind::AmbiguousEncoding)
    } else {
        match spec_first_triple(t, field_mask, opcode_group, opcode) {
            Some(f) => Ok(f.mnemonic),
            None => Err(ErrorKind::UnknownEncoding),
        }
    }
}

proof fn lemma_first_triple_exists(
    t: Seq<FormatView>,
    field_mask: u8,
    opcode_group: u8,
    opcode: u8,
)
    requires
        spec_encoding_matches(t, field_mask, opcode_group, opcode) > 0,
    ensures
        spec_first_triple(t, field_mask, opcode_group, opcode) is Some,
    decreases t.len(),
{
    if t.len() > 0 {
        if spec_encoding_matches(t.drop_last(), field_mask, opcode_group, opcode) > 0 {
            lemma_first_triple_exists(t.drop_last(), field_mask, opcode_group, opcode);
        }
    }
}

/// Scans the whole table for an encoding triple: fails when no entry or
/// more than one entry matches.
pub fn scan_encoding(
    table: &Vec<InstructionFormat>,
    field_mask: u8,
    opcode_group: u8,
    opcode: u8,
) -> (r: Result<String, ErrorKind>)
    ensures
        ({
            let sres = spec_scan_encoding(
                table@.map_values(|f: InstructionFormat| f@),
                field_mask,
                opcode_group,
                opcode,
            );
            match r {
                Ok(name) => sres is Ok && name@ == sres->Ok_0,
                Err(e) => sres == Err::<Seq<char>, ErrorKind>(e),
            }
        }),
{
    let ghost t = table@.map_values(|f: InstructionFormat| f@);
    let n = table.len();
    let mut cnt: usize = 0;
    let mut first: Option<usize> = None;
    let mut i: usize = 0;
    proof {
        assert(t.take(0) =~= Seq::<FormatView>::empty());
    }
    while i < n
        invariant
            0 <= i <= n,
            n == table.len(),
            t == table@.map_values(|f: InstructionFormat| f@),
            cnt <= i,
            cnt == spec_encoding_matches(t.take(i as int), field_mask, opcode_group, opcode),
            match first {
                Some(j) => j < i && spec_first_triple(
                    t.take(i as int),
                    field_mask,
                    opcode_group,
                    opcode,
                ) == Some(t[j as int]),
                None => spec_first_triple(
                    t.take(i as int),
                    field_mask,
                    opcode_group,
                    opcode,
                ) is None,
            },
        decreases n - i,
    {
        proof {
            assert(t.take(i + 1).drop_last() =~= t.take(i as int));
            assert(t.take(i + 1).last() == t[i as int]);
        }
        let e = &table[i];
        if e.field_mask == field_mask && e.opcode_group == opcode_group && e.opcode == opcode {
            cnt += 1;
            if first.is_none() {
                first = Some(i);
            }
        }
        i += 1;
    }
    proof {
        assert(t.take(n as int) =~= t);
    }
    if cnt == 0 {
        Err(ErrorKind::UnknownEncoding)
    } else if cnt > 1 {
        Err(ErrorKind::AmbiguousEncoding)
    } else {
        proof {
            lemma_first_triple_exists(t, field_mask, opcode_group, opcode);
        }
        match first {
            Some(j) => Ok(table[j].mnemonic.clone()),
            None => Err(ErrorKind::UnknownEncoding),
        }
    }
}

impl MuAsm {
    /// Recovers the unique mnemonic for an encoding triple, scanning the
    /// full ISA table each call.
    pub fn lookup_by_encoding(&self, field_mask: u8, opcode_group: u8, opcode: u8) -> (r: Result<
        String,
        ErrorKind,
    >)
        ensures
            ({
                let sres = spec_scan_encoding(spec_inst_table(), field_mask, opcode_group, opcode);
                match r {
                    Ok(name) => sres is Ok && name@ == sres->Ok_0,
                    Err(e) => sres == Err::<Seq<char>, ErrorKind>(e),
                }
            }),
    {
        proof {
            use_type_invariant(&*self);
        }
        scan_encoding(&self.isa_table, field_mask, opcode_group, opcode)
    }
}

/// Number of registers.
pub const REG_COUNT: u8 = 32;

/// The name of register `i`: the letter `R` followed by `i` in decimal.
pub open spec fn spec_reg_name(i: int) -> Seq<char> {
    if i < 10 {
        seq!['R', hex_digit_char(i)]
    } else {
        seq!['R', hex_digit_char(i / 10), hex_digit_char(i % 10)]
    }
}

/// The smallest register index at or after `j` whose name is `name`.
pub open spec fn spec_reg_index_from(j: int, name: Seq<char>) -> Option<u8>
    decreases REG_COUNT - j,
{
    if j < 0 || j >= REG_COUNT {
        None
    } else if spec_reg_name(j) == name {
        Some(j as u8)
    } else {
        spec_reg_index_from(j + 1, name)
    }
}

/// The register index a name denotes, if any.
pub open spec fn spec_reg_index(name: Seq<char>) -> Option<u8> {
    spec_reg_index_from(0, name)
}

fn reg_name_str(index: u8) -> (r: &'static str)
    requires
        index < REG_COUNT,
    ensures
        r@ == spec_reg_name(index as int),
{
    let r: &'static str = match index {
        0 => "R0",
        1 => "R1",
        2 => "R2",
        3 => "R3",
        4 => "R4",
        5 => "R5",
        6 => "R6",
        7 => "R7",
        8 => "R8",
        9 => "R9",
        10 => "R10",
        11 => "R11",
        12 => "R12",
        13 => "R13",
        14 => "R14",
        15 => "R15",
        16 => "R16",
        17 => "R17",
        18 => "R18",
        19 => "R19",
        20 => "R20",
        21 => "R21",
        22 => "R22",
        23 => "R23",
        24 => "R24",
        25 => "R25",
        26 => "R26",
        27 => "R27",
        28 => "R28",
        29 => "R29",
        30 => "R30",
        _ => "R31",
    };
    proof {
        reveal_strlit("R0");
        reveal_strlit("R1");
        reveal_strlit("R2");
        reveal_strlit("R3");
        reveal_strlit("R4");
        reveal_strlit("R5");
        reveal_strlit("R6");
        reveal_strlit("R7");
        reveal_strlit("R8");
        reveal_strlit("R9");
        reveal_strlit("R10");
        reveal_strlit("R11");
        reveal_strlit("R12");
        reveal_strlit("R13");
        reveal_strlit("R14");
        reveal_strlit("R15");
        reveal_strlit("R16");
        reveal_strlit("R17");
        reveal_strlit("R18");
        reveal_strlit("R19");
        reveal_strlit("R20");
        reveal_strlit("R21");
        reveal_strlit("R22");
        reveal_strlit("R23");
        reveal_strlit("R24");
        reveal_strlit("R25");
        reveal_strlit("R26");
        reveal_strlit("R27");
        reveal_strlit("R28");
        reveal_strlit("R29");
        reveal_strlit("R30");
        reveal_strlit("R31");
        assert(r@ =~= spec_reg_name(index as int));
    }
    r
}

/// The name of register `index`, or `None` past the last register.
pub fn register_name(index: u8) -> (r: Option<&'static str>)
    ensures
        match r {
            Some(s) => index < REG_COUNT && s@ == spec_reg_name(index as int),
            None => index >= REG_COUNT,
        },
{
    if index < REG_COUNT {
        Some(reg_name_str(index))
    } else {
        None
    }
}

/// The index a register name denotes, or `None` for any other token.
pub fn register_index(name: &str) -> (r: Option<u8>)
    ensures
        r == spec_reg_index(name@),
{
    let mut j: u8 = 0;
    while j < REG_COUNT
        invariant
            0 <= j <= REG_COUNT,
            spec_reg_index(name@) == spec_reg_index_from(j as int, name@),
        decreases REG_COUNT - j,
    {
        let s = reg_name_str(j);
        if str_eq(name, s) {
            return Some(j);
        }
        j += 1;
    }
    None
}

/// Distinct registers have distinct names.
pub proof fn lemma_reg_names_distinct(i: int, j: int)
    requires
        0 <= i < REG_COUNT,
        0 <= j < REG_COUNT,
        i != j,
    ensures
        spec_reg_name(i) != spec_reg_name(j),
{
    assert(forall|a: int, b: int|
        0 <= a < 16 && 0 <= b < 16 && a != b ==> hex_digit_char(a) != hex_digit_char(b));
    if i < 10 && j < 10 {
        assert(spec_reg_name(i)[1] != spec_reg_name(j)[1]);
    } else if i < 10 || j < 10 {
        assert(spec_reg_name(i).len() != spec_reg_name(j).len());
    } else {
        if spec_reg_name(i) == spec_reg_name(j) {
            assert(spec_reg_name(i)[1] == spec_reg_name(j)[1]);
            assert(spec_reg_name(i)[2] == spec_reg_name(j)[2]);
            assert(i / 10 == j / 10 && i % 10 == j % 10);
        }
    }
}

/// Looking a register's own name up yields its index: names resolve
/// unambiguously.
pub proof fn lemma_reg_index_of_name(i: int)
    requires
        0 <= i < REG_COUNT,
    ensures
        spec_reg_index(spec_reg_name(i)) == Some(i as u8),
{
    lemma_reg_index_from(0, i);
}

proof fn lemma_reg_index_from(j: int, i: int)
    requires
        0 <= j <= i < REG_COUNT,
    ensures
        spec_reg_index_from(j, spec_reg_name(i)) == Some(i as u8),
    decreases i - j,
{
    if j == i {
    } else {
        lemma_reg_names_distinct(j, i);
        lemma_reg_index_from(j + 1, i);
    }
}

/// No register name is mistakable for a literal or a label: each starts
/// with the letter `R`, which is no digit and no sigil, so the classifier's
/// precedence can never hide a register.
pub proof fn lemma_reg_name_shape(i: int)
    requires
        0 <= i < REG_COUNT,
    ensures
        2 <= spec_reg_name(i).len() <= 3,
        spec_reg_name(i)[0] == 'R',
        spec_reg_name(i)[0] != '@',
        spec_reg_name(i)[0] != '0',
        !crate::numbers::is_dec_digit(spec_reg_name(i)[0]),
{
}

/// The ISA table never holds two entries with the same (field mask, opcode
/// group, opcode) triple: the decode key is unique.
pub proof fn lemma_inst_table_triples_unique()
    ensures
        forall|i: int, j: int|
            #![trigger spec_inst_table()[i], spec_inst_table()[j]]
            0 <= i < j < spec_inst_table().len() ==> !spec_triple_matches(
                spec_inst_table()[i],
                spec_inst_table()[j].field_mask,
                spec_inst_table()[j].opcode_group,
                spec_inst_table()[j].opcode,
            ),
{
    assert forall|i: int, j: int|
        #![trigger spec_inst_table()[i], spec_inst_table()[j]]
        0 <= i < j < spec_inst_table().len() implies !spec_triple_matches(
        spec_inst_table()[i],
        spec_inst_table()[j].field_mask,
        spec_inst_table()[j].opcode_group,
        spec_inst_table()[j].opcode,
    ) by {
        assert(spec_inst_table()[i] == spec_inst_entry(i));
        assert(spec_inst_table()[j] == spec_inst_entry(j));
    }
}


proof fn lemma_encoding_matches_zero(t: Seq<FormatView>, field_mask: u8, opcode_group: u8, opcode: u8)
    requires
        forall|j: int|
            0 <= j < t.len() ==> !spec_triple_matches(
                #[trigger] t[j],
                field_mask,
                opcode_group,
                opcode,
            ),
    ensures
        spec_encoding_matches(t, field_mask, opcode_group, opcode) == 0,
        spec_first_triple(t, field_mask, opcode_group, opcode) is None,
    decreases t.len(),
{
    if t.len() > 0 {
        assert(forall|j: int|
            0 <= j < t.drop_last().len() ==> #[trigger] t.drop_last()[j] == t[j]);
        lemma_encoding_matches_zero(t.drop_last(), field_mask, opcode_group, opcode);
        assert(t.last() == t[t.len() - 1]);
    }
}

proof fn lemma_encoding_matches_one(t: Seq<FormatView>, idx: int)
    requires
        0 <= idx < t.len(),
        forall|j: int|
            0 <= j < t.len() && j != idx ==> !spec_triple_matches(
                #[trigger] t[j],
                t[idx].field_mask,
                t[idx].opcode_group,
                t[idx].opcode,
            ),
    ensures
        spec_encoding_matches(t, t[idx].field_mask, t[idx].opcode_group, t[idx].opcode) == 1,
        spec_first_triple(t, t[idx].field_mask, t[idx].opcode_group, t[idx].opcode) == Some(t[idx]),
    decreases t.len(),
{
    assert(forall|j: int| 0 <= j < t.drop_last().len() ==> #[trigger] t.drop_last()[j] == t[j]);
    if idx == t.len() - 1 {
        lemma_encoding_matches_zero(
            t.drop_last(),
            t[idx].field_mask,
            t[idx].opcode_group,
            t[idx].opcode,
        );
        assert(t.last() == t[idx]);
    } else {
        lemma_encoding_matches_one(t.drop_last(), idx);
        assert(t.drop_last()[idx] == t[idx]);
        assert(t.last() == t[t.len() - 1]);
    }
}

/// Reverse lookup of any table entry's own encoding triple recovers exactly
/// that entry's mnemonic: the decode key is unambiguous.
pub proof fn lemma_scan_encoding_of_entry(idx: int)
    requires
        0 <= idx < spec_inst_table().len(),
    ensures
        spec_scan_encoding(
            spec_inst_table(),
            spec_inst_table()[idx].field_mask,
            spec_inst_table()[idx].opcode_group,
            spec_inst_table()[idx].opcode,
        ) == Ok::<Seq<char>, ErrorKind>(spec_inst_table()[idx].mnemonic),
{
    lemma_inst_table_triples_unique();
    lemma_encoding_matches_one(spec_inst_table(), idx);
}

/// Every mnemonic in the table is a plain word: nonempty, free of blanks
/// and comment markers, and no label sigil in front.
pub proof fn lemma_inst_table_mnemonic_chars()
    ensures
        forall|i: int|
            0 <= i < spec_inst_table().len() ==> {
                let mn = (#[trigger] spec_inst_table()[i]).mnemonic;
                mn.len() > 0 && mn[0] != '@' && (forall|k: int|
                    0 <= k < mn.len() ==> !is_blank(#[trigger] mn[k]) && mn[k] != ';')
            },
{
    reveal_strlit("SET");
    reveal_strlit("SETH");
    reveal_strlit("MOV");
    reveal_strlit("LD1");
    reveal_strlit("LD2");
    reveal_strlit("LD4");
    reveal_strlit("LD8");
    reveal_strlit("ST1");
    reveal_strlit("ST2");
    reveal_strlit("ST4");
    reveal_strlit("ST8");
    reveal_strlit("ADD");
    reveal_strlit("SUB");
    reveal_strlit("MUL");
    reveal_strlit("DIV");
    reveal_strlit("GEQ");
    reveal_strlit("GRE");
    reveal_strlit("EQU");
    reveal_strlit("LEQ");
    reveal_strlit("LES");
    reveal_strlit("J");
    reveal_strlit("CJ");
    reveal_strlit("CALL");
    reveal_strlit("RET");
    assert forall|i: int| 0 <= i < spec_inst_table().len() implies {
        let mn = (#[trigger] spec_inst_table()[i]).mnemonic;
        mn.len() > 0 && mn[0] != '@' && (forall|k: int|
            0 <= k < mn.len() ==> !is_blank(#[trigger] mn[k]) && mn[k] != ';')
    } by {
        assert(spec_inst_table()[i] == spec_inst_entry(i));
    }
}

} // verus!
