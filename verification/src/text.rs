//! Character-level text helpers shared by the assembler's line scanner and
//! the operand parser: blank classification, comment stripping, trimming,
//! and whitespace tokenization, each with a spec-level model.

use vstd::prelude::*;

verus! {

/// Characters treated as blanks: they separate tokens and are trimmed from
/// line ends.
pub open spec fn is_blank(c: char) -> bool {
    c == ' ' || c == '\t' || c == '\r' || c == '\n'
}

/// Executable test for [`is_blank`].
pub fn is_blank_char(c: char) -> (r: bool)
    ensures
        r == is_blank(c),
{
    c == ' ' || c == '\t' || c == '\r' || c == '\n'
}

/// The part of a line before its first comment marker (`';'`); the whole
/// line when no marker occurs.
pub open spec fn strip_comment(s: Seq<char>) -> Seq<char>
    decreases s.len(),
{
    if s.len() == 0 {
        seq![]
    } else if s[0] == ';' {
        seq![]
    } else {
        seq![s[0]] + strip_comment(s.skip(1))
    }
}

proof fn lemma_strip_comment_take(s: Seq<char>, i: int)
    requires
        0 <= i <= s.len(),
        forall|k: int| 0 <= k < i ==> s[k] != ';',
        i < s.len() ==> s[i] == ';',
    ensures
        strip_comment(s) == s.take(i),
    decreases s.len(),
{
    if s.len() == 0 {
        assert(strip_comment(s) =~= s.take(0));
    } else if s[0] == ';' {
        assert(i == 0);
        assert(strip_comment(s) =~= s.take(0));
    } else {
        assert(i >= 1);
        assert(forall|k: int| 0 <= k < i - 1 ==> s.skip(1)[k] == s[k + 1]);
        lemma_strip_comment_take(s.skip(1), i - 1);
        assert(strip_comment(s) =~= s.take(i)) by {
            assert(strip_comment(s) == seq![s[0]] + s.skip(1).take(i - 1));
        }
    }
}

/// Returns the prefix of `s` before its first `';'`.
pub fn strip_comment_str<'a>(s: &'a str) -> (r: &'a str)
    ensures
        r@ == strip_comment(s@),
{
    let n = s.unicode_len();
    let mut i: usize = 0;
    while i < n && s.get_char(i) != ';'
        invariant
            0 <= i <= n,
            n == s@.len(),
            forall|k: int| 0 <= k < i ==> s@[k] != ';',
        decreases n - i,
    {
        i += 1;
    }
    proof {
        lemma_strip_comment_take(s@, i as int);
    }
    s.substring_char(0, i)
}

/// Number of blank characters at the front of `s`.
pub open spec fn leading_blanks(s: Seq<char>) -> int
    decreases s.len(),
{
    if s.len() == 0 {
        0
    } else if !is_blank(s[0]) {
        0
    } else {
        1 + leading_blanks(s.skip(1))
    }
}

/// Number of blank characters at the back of `s`.
pub open spec fn trailing_blanks(s: Seq<char>) -> int
    decreases s.len(),
{
    if s.len() == 0 {
        0
    } else if !is_blank(s.last()) {
        0
    } else {
        1 + trailing_blanks(s.drop_last())
    }
}

/// `s` without its leading and trailing blanks.
pub open spec fn trim(s: Seq<char>) -> Seq<char> {
    if leading_blanks(s) == s.len() {
        seq![]
    } else {
        s.subrange(leading_blanks(s), s.len() - trailing_blanks(s))
    }
}

proof fn lemma_leading_blanks_at(s: Seq<char>, a: int)
    requires
        0 <= a <= s.len(),
        forall|k: int| 0 <= k < a ==> is_blank(s[k]),
        a < s.len() ==> !is_blank(s[a]),
    ensures
        leading_blanks(s) == a,
    decreases s.len(),
{
    if s.len() == 0 {
    } else if !is_blank(s[0]) {
        assert(a == 0);
    } else {
        assert(a >= 1);
        assert(forall|k: int| 0 <= k < a - 1 ==> s.skip(1)[k] == s[k + 1]);
        assert(a - 1 < s.skip(1).len() ==> s.skip(1)[a - 1] == s[a]);
        lemma_leading_blanks_at(s.skip(1), a - 1);
    }
}

proof fn lemma_trailing_blanks_at(s: Seq<char>, b: int)
    requires
        0 <= b <= s.len(),
        forall|k: int| s.len() - b <= k < s.len() ==> is_blank(s[k]),
        b < s.len() ==> !is_blank(s[s.len() - b - 1]),
    ensures
        trailing_blanks(s) == b,
    decreases s.len(),
{
    if s.len() == 0 {
    } else if !is_blank(s.last()) {
        assert(b == 0);
    } else {
        assert(b >= 1);
        assert(forall|k: int| 0 <= k < s.len() - 1 ==> s.drop_last()[k] == s[k]);
        lemma_trailing_blanks_at(s.drop_last(), b - 1);
    }
}

/// Returns `s` with leading and trailing blanks removed.
pub fn trim_str<'a>(s: &'a str) -> (r: &'a str)
    ensures
        r@ == trim(s@),
{
    let n = s.unicode_len();
    let mut a: usize = 0;
    while a < n && is_blank_char(s.get_char(a))
        invariant
            0 <= a <= n,
            n == s@.len(),
            forall|k: int| 0 <= k < a ==> is_blank(s@[k]),
        decreases n - a,
    {
        a += 1;
    }
    if a == n {
        proof {
            lemma_leading_blanks_at(s@, a as int);
            assert(s@.subrange(n as int, n as int) =~= seq![]);
        }
        return s.substring_char(n, n);
    }
    let mut e: usize = n;
    while is_blank_char(s.get_char(e - 1))
        invariant
            a < e <= n,
            n == s@.len(),
            !is_blank(s@[a as int]),
            forall|k: int| e <= k < n ==> is_blank(s@[k]),
        decreases e,
    {
        e -= 1;
    }
    proof {
        lemma_leading_blanks_at(s@, a as int);
        lemma_trailing_blanks_at(s@, (n - e) as int);
    }
    s.substring_char(a, e)
}

proof fn lemma_leading_blanks_bounds(s: Seq<char>)
    ensures
        0 <= leading_blanks(s) <= s.len(),
        forall|k: int| 0 <= k < leading_blanks(s) ==> is_blank(#[trigger] s[k]),
        leading_blanks(s) < s.len() ==> !is_blank(s[leading_blanks(s)]),
    decreases s.len(),
{
    if s.len() > 0 && is_blank(s[0]) {
        lemma_leading_blanks_bounds(s.skip(1));
        assert forall|k: int| 0 <= k < leading_blanks(s) implies is_blank(#[trigger] s[k]) by {
            if k > 0 {
                assert(s.skip(1)[k - 1] == s[k]);
            }
        }
        assert(leading_blanks(s) < s.len() ==> s.skip(1)[leading_blanks(s) - 1] == s[
            leading_blanks(s)]);
    }
}

proof fn lemma_trailing_blanks_bounds(s: Seq<char>)
    ensures
        0 <= trailing_blanks(s) <= s.len(),
        forall|k: int| s.len() - trailing_blanks(s) <= k < s.len() ==> is_blank(#[trigger] s[k]),
        trailing_blanks(s) < s.len() ==> !is_blank(s[s.len() - trailing_blanks(s) - 1]),
    decreases s.len(),
{
    if s.len() > 0 && is_blank(s.last()) {
        lemma_trailing_blanks_bounds(s.drop_last());
        assert forall|k: int|
            s.len() - trailing_blanks(s) <= k < s.len() implies is_blank(#[trigger] s[k]) by {
            if k < s.len() - 1 {
                assert(s.drop_last()[k] == s[k]);
            }
        }
        assert(trailing_blanks(s) < s.len() ==> s.drop_last()[s.len() - trailing_blanks(s) - 1]
            == s[s.len() - trailing_blanks(s) - 1]);
    }
}

/// A line's trimmed form is empty exactly when every character is blank;
/// when it is not, it neither starts nor ends with a blank.
pub proof fn lemma_trim_edges(s: Seq<char>)
    ensures
        trim(s).len() > 0 ==> !is_blank(trim(s)[0]),
        trim(s).len() > 0 ==> !is_blank(trim(s).last()),
{
    lemma_leading_blanks_bounds(s);
    lemma_trailing_blanks_bounds(s);
    let a = leading_blanks(s);
    let b = trailing_blanks(s);
    if a < s.len() {
        // the non-blank character at `a` sits before the trailing blanks
        assert(a < s.len() - b);
        assert(trim(s)[0] == s[a]);
        assert(trim(s).last() == s[s.len() - b - 1]);
    }
}

/// A nonempty run of tokens starts at a non-blank first character.
pub proof fn lemma_tokens_nonempty(s: Seq<char>)
    requires
        s.len() > 0,
        !is_blank(s[0]),
    ensures
        tokens(s).len() > 0,
{
}

/// Length of the maximal non-blank prefix of `s`: the first token's length
/// when `s` begins with a token character.
pub open spec fn token_len(s: Seq<char>) -> int
    decreases s.len(),
{
    if s.len() == 0 {
        0
    } else if is_blank(s[0]) {
        0
    } else {
        1 + token_len(s.skip(1))
    }
}

proof fn lemma_token_len_bounds(s: Seq<char>)
    ensures
        0 <= token_len(s) <= s.len(),
    decreases s.len(),
{
    if s.len() != 0 && !is_blank(s[0]) {
        lemma_token_len_bounds(s.skip(1));
    }
}

proof fn lemma_token_len_at(s: Seq<char>, i: int)
    requires
        0 <= i <= s.len(),
        forall|k: int| 0 <= k < i ==> !is_blank(s[k]),
        i < s.len() ==> is_blank(s[i]),
    ensures
        token_len(s) == i,
    decreases s.len(),
{
    if s.len() == 0 {
    } else if is_blank(s[0]) {
        assert(i == 0);
    } else {
        assert(i >= 1);
        assert(forall|k: int| 0 <= k < i - 1 ==> s.skip(1)[k] == s[k + 1]);
        assert(i - 1 < s.skip(1).len() ==> s.skip(1)[i - 1] == s[i]);
        lemma_token_len_at(s.skip(1), i - 1);
    }
}

/// The sequence of blank-separated tokens of `s`, in order. Tokens are
/// maximal runs of non-blank characters; every token is nonempty.
pub open spec fn tokens(s: Seq<char>) -> Seq<Seq<char>>
    decreases s.len(),
    via tokens_decreases
{
    if s.len() == 0 {
        seq![]
    } else if is_blank(s[0]) {
        tokens(s.skip(1))
    } else {
        seq![s.take(token_len(s))] + tokens(s.skip(token_len(s)))
    }
}

#[via_fn]
proof fn tokens_decreases(s: Seq<char>) {
    lemma_token_len_bounds(s);
    if s.len() != 0 && !is_blank(s[0]) {
        lemma_token_len_bounds(s.skip(1));
        assert(token_len(s) == 1 + token_len(s.skip(1)));
    }
}

/// Splits `s` into its blank-separated tokens.
pub fn split_blanks(s: &str) -> (toks: Vec<String>)
    ensures
        toks@.map_values(|t: String| t@) == tokens(s@),
{
    let n = s.unicode_len();
    let mut toks: Vec<String> = Vec::new();
    let mut i: usize = 0;
    proof {
        assert(s@.skip(0) =~= s@);
        assert(toks@.map_values(|t: String| t@) + tokens(s@) =~= tokens(s@));
    }
    while i < n
        invariant
            0 <= i <= n,
            n == s@.len(),
            toks@.map_values(|t: String| t@) + tokens(s@.skip(i as int)) == tokens(s@),
        decreases n - i,
    {
        let c = s.get_char(i);
        if is_blank_char(c) {
            proof {
                assert(s@.skip(i as int).skip(1) =~= s@.skip(i + 1));
            }
            i += 1;
        } else {
            let mut j: usize = i + 1;
            while j < n && !is_blank_char(s.get_char(j))
                invariant
                    i < j <= n,
                    n == s@.len(),
                    forall|k: int| i <= k < j ==> !is_blank(s@[k]),
                decreases n - j,
            {
                j += 1;
            }
            let tok = s.substring_char(i, j);
            proof {
                let rest = s@.skip(i as int);
                assert(forall|k: int| 0 <= k < j - i ==> rest[k] == s@[k + i]);
                assert((j as int) - (i as int) < rest.len() ==> rest[(j - i) as int] == s@[j as int]);
                lemma_token_len_at(rest, (j - i) as int);
                assert(rest.take((j - i) as int) =~= s@.subrange(i as int, j as int));
                assert(rest.skip((j - i) as int) =~= s@.skip(j as int));
                assert(tokens(rest) == seq![tok@] + tokens(s@.skip(j as int)));
            }
            let ghost old_toks = toks@;
            toks.push(String::from_str(tok));
            proof {
                assert(toks@.map_values(|t: String| t@) =~= old_toks.map_values(|t: String| t@)
                    + seq![tok@]);
                assert(toks@.map_values(|t: String| t@) + tokens(s@.skip(j as int)) =~= (
                old_toks.map_values(|t: String| t@) + tokens(s@.skip(i as int))));
            }
            i = j;
        }
    }
    proof {
        assert(tokens(s@.skip(i as int)) =~= seq![]);
        assert(toks@.map_values(|t: String| t@) =~= tokens(s@));
    }
    toks
}

/// A line without a comment marker is untouched by comment stripping.
pub proof fn lemma_strip_comment_none(s: Seq<char>)
    requires
        forall|k: int| 0 <= k < s.len() ==> (#[trigger] s[k]) != ';',
    ensures
        strip_comment(s) == s,
{
    lemma_strip_comment_take(s, s.len() as int);
    assert(s.take(s.len() as int) =~= s);
}

/// A line with no blank at either end is untouched by trimming.
pub proof fn lemma_trim_noop(s: Seq<char>)
    requires
        s.len() > 0,
        !is_blank(s[0]),
        !is_blank(s.last()),
    ensures
        trim(s) == s,
{
    lemma_leading_blanks_at(s, 0);
    lemma_trailing_blanks_at(s, 0);
    assert(s.subrange(0, s.len() as int) =~= s);
}

/// Splitting a text that starts with a maximal token yields that token and
/// then the split of the rest.
pub proof fn lemma_tokens_prepend_token(a: Seq<char>, rest: Seq<char>)
    requires
        a.len() > 0,
        forall|k: int| 0 <= k < a.len() ==> !is_blank(#[trigger] a[k]),
        rest.len() == 0 || is_blank(rest[0]),
    ensures
        tokens(a + rest) == seq![a] + tokens(rest),
{
    let s = a + rest;
    assert(s[0] == a[0]);
    assert(forall|k: int| 0 <= k < a.len() ==> #[trigger] s[k] == a[k]);
    assert((a.len() as int) < s.len() ==> s[a.len() as int] == rest[0]);
    lemma_token_len_at(s, a.len() as int);
    assert(s.take(a.len() as int) =~= a);
    assert(s.skip(a.len() as int) =~= rest);
}

/// Character-wise string equality.
pub fn str_eq(a: &str, b: &str) -> (r: bool)
    ensures
        r == (a@ == b@),
{
    let na = a.unicode_len();
    let nb = b.unicode_len();
    if na != nb {
        return false;
    }
    let mut i: usize = 0;
    while i < na
        invariant
            0 <= i <= na,
            na == a@.len(),
            na == b@.len(),
            forall|k: int| 0 <= k < i ==> a@[k] == b@[k],
        decreases na - i,
    {
        if a.get_char(i) != b.get_char(i) {
            return false;
        }
        i += 1;
    }
    proof {
        assert(a@ =~= b@);
    }
    true
}

} // verus!
