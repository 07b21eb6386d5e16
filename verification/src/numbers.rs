//! Unsigned-integer literals: spec-level models of base-10 and base-16
//! digit strings, verified parsers that reject values over 32 bits, and the
//! zero-padded lowercase hexadecimal rendering used by the disassembler.

use vstd::prelude::*;

verus! {

pub open spec fn is_dec_digit(c: char) -> bool {
    '0' as int <= c as int <= '9' as int
}

pub open spec fn dec_val(c: char) -> int {
    c as int - '0' as int
}

pub open spec fn all_dec(s: Seq<char>) -> bool {
    forall|k: int| 0 <= k < s.len() ==> is_dec_digit(#[trigger] s[k])
}

/// The value of a base-10 digit string (most significant digit first).
pub open spec fn dec_value(s: Seq<char>) -> int
    decreases s.len(),
{
    if s.len() == 0 {
        0
    } else {
        dec_value(s.drop_last()) * 10 + dec_val(s.last())
    }
}

pub open spec fn is_hex_digit(c: char) -> bool {
    is_dec_digit(c) || ('a' as int <= c as int <= 'f' as int) || ('A' as int <= c as int
        <= 'F' as int)
}

pub open spec fn hex_val(c: char) -> int {
    if is_dec_digit(c) {
        dec_val(c)
    } else if 'a' as int <= c as int <= 'f' as int {
        c as int - 'a' as int + 10
    } else {
        c as int - 'A' as int + 10
    }
}

pub open spec fn all_hex(s: Seq<char>) -> bool {
    forall|k: int| 0 <= k < s.len() ==> is_hex_digit(#[trigger] s[k])
}

/// The value of a base-16 digit string (most significant digit first).
pub open spec fn hex_value(s: Seq<char>) -> int
    decreases s.len(),
{
    if s.len() == 0 {
        0
    } else {
        hex_value(s.drop_last()) * 16 + hex_val(s.last())
    }
}

pub proof fn lemma_dec_value_nonneg(s: Seq<char>)
    requires
        all_dec(s),
    ensures
        dec_value(s) >= 0,
    decreases s.len(),
{
    if s.len() > 0 {
        assert(all_dec(s.drop_last()));
        lemma_dec_value_nonneg(s.drop_last());
    }
}

pub proof fn lemma_hex_value_nonneg(s: Seq<char>)
    requires
        all_hex(s),
    ensures
        hex_value(s) >= 0,
    decreases s.len(),
{
    if s.len() > 0 {
        assert(all_hex(s.drop_last()));
        lemma_hex_value_nonneg(s.drop_last());
    }
}

pub fn is_dec_digit_char(c: char) -> (r: bool)
    ensures
        r == is_dec_digit(c),
{
    let u = c as u32;
    '0' as u32 <= u && u <= '9' as u32
}

pub fn is_hex_digit_char(c: char) -> (r: bool)
    ensures
        r == is_hex_digit(c),
{
    let u = c as u32;
    ('0' as u32 <= u && u <= '9' as u32) || ('a' as u32 <= u && u <= 'f' as u32) || ('A' as u32
        <= u && u <= 'F' as u32)
}

fn dec_digit_val(c: char) -> (d: u32)
    requires
        is_dec_digit(c),
    ensures
        d == dec_val(c),
        d <= 9,
{
    c as u32 - '0' as u32
}

fn hex_digit_val(c: char) -> (d: u32)
    requires
        is_hex_digit(c),
    ensures
        d == hex_val(c),
        d <= 15,
{
    let u = c as u32;
    if '0' as u32 <= u && u <= '9' as u32 {
        u - '0' as u32
    } else if 'a' as u32 <= u && u <= 'f' as u32 {
        u - 'a' as u32 + 10
    } else {
        u - 'A' as u32 + 10
    }
}

pub fn check_all_dec(s: &str) -> (r: bool)
    ensures
        r == all_dec(s@),
{
    let n = s.unicode_len();
    let mut i: usize = 0;
    while i < n
        invariant
            0 <= i <= n,
            n == s@.len(),
            forall|k: int| 0 <= k < i ==> is_dec_digit(#[trigger] s@[k]),
        decreases n - i,
    {
        if !is_dec_digit_char(s.get_char(i)) {
            return false;
        }
        i += 1;
    }
    true
}

pub fn check_all_hex(s: &str) -> (r: bool)
    ensures
        r == all_hex(s@),
{
    let n = s.unicode_len();
    let mut i: usize = 0;
    while i < n
        invariant
            0 <= i <= n,
            n == s@.len(),
            forall|k: int| 0 <= k < i ==> is_hex_digit(#[trigger] s@[k]),
        decreases n - i,
    {
        if !is_hex_digit_char(s.get_char(i)) {
            return false;
        }
        i += 1;
    }
    true
}

/// Parses an all-decimal string; `None` means the value does not fit in 32
/// bits.
pub fn dec_u32(s: &str) -> (r: Option<u32>)
    requires
        all_dec(s@),
    ensures
        match r {
            Some(v) => v == dec_value(s@),
            None => dec_value(s@) > u32::MAX,
        },
{
    let n = s.unicode_len();
    let mut acc: u32 = 0;
    let mut over: bool = false;
    let mut i: usize = 0;
    proof {
        assert(s@.take(0) =~= Seq::<char>::empty());
    }
    while i < n
        invariant
            0 <= i <= n,
            n == s@.len(),
            all_dec(s@),
            over ==> dec_value(s@.take(i as int)) > u32::MAX,
            !over ==> acc == dec_value(s@.take(i as int)),
        decreases n - i,
    {
        let d = dec_digit_val(s.get_char(i));
        proof {
            assert(s@.take(i + 1).drop_last() =~= s@.take(i as int));
            assert(s@.take(i + 1).last() == s@[i as int]);
        }
        if over {
            proof {
                assert(dec_value(s@.take(i + 1)) == dec_value(s@.take(i as int)) * 10 + d);
            }
        } else {
            let wide: u64 = acc as u64 * 10 + d as u64;
            if wide > u32::MAX as u64 {
                over = true;
            } else {
                acc = wide as u32;
            }
        }
        i += 1;
    }
    proof {
        assert(s@.take(n as int) =~= s@);
    }
    if over {
        None
    } else {
        Some(acc)
    }
}

/// Parses an all-hexadecimal string; `None` means the value does not fit in
/// 32 bits.
pub fn hex_u32(s: &str) -> (r: Option<u32>)
    requires
        all_hex(s@),
    ensures
        match r {
            Some(v) => v == hex_value(s@),
            None => hex_value(s@) > u32::MAX,
        },
{
    let n = s.unicode_len();
    let mut acc: u32 = 0;
    let mut over: bool = false;
    let mut i: usize = 0;
    proof {
        assert(s@.take(0) =~= Seq::<char>::empty());
    }
    while i < n
        invariant
            0 <= i <= n,
            n == s@.len(),
            all_hex(s@),
            over ==> hex_value(s@.take(i as int)) > u32::MAX,
            !over ==> acc == hex_value(s@.take(i as int)),
        decreases n - i,
    {
        let d = hex_digit_val(s.get_char(i));
        proof {
            assert(s@.take(i + 1).drop_last() =~= s@.take(i as int));
            assert(s@.take(i + 1).last() == s@[i as int]);
        }
        if over {
            proof {
                assert(hex_value(s@.take(i + 1)) == hex_value(s@.take(i as int)) * 16 + d);
            }
        } else {
            let wide: u64 = acc as u64 * 16 + d as u64;
            if wide > u32::MAX as u64 {
                over = true;
            } else {
                acc = wide as u32;
            }
        }
        i += 1;
    }
    proof {
        assert(s@.take(n as int) =~= s@);
    }
    if over {
        None
    } else {
        Some(acc)
    }
}

/// The lowercase character for one hexadecimal digit.
pub open spec fn hex_digit_char(d: int) -> char {
    if d == 0 {
        '0'
    } else if d == 1 {
        '1'
    } else if d == 2 {
        '2'
    } else if d == 3 {
        '3'
    } else if d == 4 {
        '4'
    } else if d == 5 {
        '5'
    } else if d == 6 {
        '6'
    } else if d == 7 {
        '7'
    } else if d == 8 {
        '8'
    } else if d == 9 {
        '9'
    } else if d == 10 {
        'a'
    } else if d == 11 {
        'b'
    } else if d == 12 {
        'c'
    } else if d == 13 {
        'd'
    } else if d == 14 {
        'e'
    } else {
        'f'
    }
}

/// A 32-bit value rendered as exactly eight lowercase hexadecimal digits,
/// most significant first.
pub open spec fn hex8(v: u32) -> Seq<char> {
    Seq::new(8, |k: int| hex_digit_char(((v >> ((28 - 4 * k) as u32)) & 0xf) as int))
}

/// Renders `v` as eight lowercase hexadecimal digits.
pub fn hex8_str(v: u32) -> (r: String)
    ensures
        r@ == hex8(v),
{
    let mut out = String::new();
    let mut k: u32 = 0;
    proof {
        assert(out@ =~= hex8(v).take(0));
    }
    while k < 8
        invariant
            0 <= k <= 8,
            out@ == hex8(v).take(k as int),
        decreases 8 - k,
    {
        let sh: u32 = 28 - 4 * k;
        let nib: u32 = (v >> sh) & 0xf;
        proof {
            assert((v >> sh) & 0xf < 16) by (bit_vector);
        }
        let dstr: &str = match nib {
            0 => "0",
            1 => "1",
            2 => "2",
            3 => "3",
            4 => "4",
            5 => "5",
            6 => "6",
            7 => "7",
            8 => "8",
            9 => "9",
            10 => "a",
            11 => "b",
            12 => "c",
            13 => "d",
            14 => "e",
            _ => "f",
        };
        proof {
            reveal_strlit("0");
            reveal_strlit("1");
            reveal_strlit("2");
            reveal_strlit("3");
            reveal_strlit("4");
            reveal_strlit("5");
            reveal_strlit("6");
            reveal_strlit("7");
            reveal_strlit("8");
            reveal_strlit("9");
            reveal_strlit("a");
            reveal_strlit("b");
            reveal_strlit("c");
            reveal_strlit("d");
            reveal_strlit("e");
            reveal_strlit("f");
            assert(dstr@ =~= seq![hex_digit_char(nib as int)]);
        }
        out.append(dstr);
        proof {
            assert(out@ =~= hex8(v).take(k + 1));
        }
        k += 1;
    }
    proof {
        assert(hex8(v).take(8) =~= hex8(v));
    }
    out
}

/// Each rendered digit is a hexadecimal digit, and reading the rendering
/// back as base-16 recovers the value.
pub proof fn lemma_hex8_reparse(v: u32)
    ensures
        hex8(v).len() == 8,
        all_hex(hex8(v)),
        hex_value(hex8(v)) == v,
{
    assert forall|d: u32| d < 16 implies is_hex_digit(hex_digit_char(d as int)) && hex_val(
        hex_digit_char(d as int),
    ) == d by {
        assert(d < 16 ==> d == 0 || d == 1 || d == 2 || d == 3 || d == 4 || d == 5 || d == 6 || d
            == 7 || d == 8 || d == 9 || d == 10 || d == 11 || d == 12 || d == 13 || d == 14 || d
            == 15) by (bit_vector);
    }
    assert(forall|sh: u32| ((v >> sh) & 0xf) < 16) by (bit_vector);
    assert forall|k: int| 0 <= k < 8 implies is_hex_digit(#[trigger] hex8(v)[k]) by {
        let nib = (v >> ((28 - 4 * k) as u32)) & 0xf;
        assert(nib < 16);
    }
    lemma_hex8_value_prefix(v, 8);
    assert(hex8(v).take(8) =~= hex8(v));
    assert(v >> 0 == v) by (bit_vector);
}

proof fn lemma_hex8_value_prefix(v: u32, i: int)
    requires
        0 <= i <= 8,
    ensures
        hex_value(hex8(v).take(i)) == if i == 0 {
            0
        } else {
            (v >> ((32 - 4 * i) as u32)) as int
        },
    decreases i,
{
    if i == 0 {
        assert(hex8(v).take(0) =~= Seq::<char>::empty());
    } else {
        lemma_hex8_value_prefix(v, i - 1);
        assert(hex8(v).take(i).drop_last() =~= hex8(v).take(i - 1));
        assert(hex8(v).take(i).last() == hex8(v)[i - 1]);
        let nib = (v >> ((28 - 4 * (i - 1)) as u32)) & 0xf;
        assert(hex_val(hex_digit_char(nib as int)) == nib) by {
            assert(forall|sh: u32| ((v >> sh) & 0xf) < 16) by (bit_vector);
            assert(forall|d: u32| d < 16 ==> hex_val(hex_digit_char(d as int)) == d);
        }
        let sh_new: u32 = (32 - 4 * i) as u32;
        if i == 1 {
            assert((v >> 28u32) & 0xf == v >> 28u32) by (bit_vector);
        } else {
            let sh_old: u32 = (32 - 4 * (i - 1)) as u32;
            assert(sh_old == sh_new + 4 && sh_new <= 28 ==> (v >> sh_new) as int == (v
                >> sh_old) as int * 16 + ((v >> sh_new) & 0xf) as int) by (bit_vector);
        }
    }
}

} // verus!
