//! Building blocks for the hand-written matchers of the site grammars:
//! case-insensitive literals, character classes and maximal runs.

use crate::text::{
    ci_char, ci_char_exec, ci_range, ci_range_exec, is_ascii_digit, is_nd, is_nd_exec, is_ws,
    is_ws_exec, lead_len, lemma_lead_len,
};
use vstd::prelude::*;

verus! {

/// Whether `c` is a Unicode word character (`\w`): Alphabetic, Decimal_Number,
/// Mark, Connector_Punctuation or Join_Control.
pub uninterp spec fn is_word_char(c: char) -> bool;

/// `regex_syntax::is_word_character`. Its documentation defines the set by
/// Unicode properties; the contract states that set only through the name
/// `is_word_char`, plus what it is on ASCII: `[0-9A-Za-z_]`.
#[verifier::external_body]
pub fn word_char(c: char) -> (b: bool)
    ensures
        b == is_word_char(c),
        (c as u32) < 128 ==> (b == (('0' <= c && c <= '9') || ('a' <= c && c <= 'z') || ('A' <= c
            && c <= 'Z') || c == '_')),
{
    regex_syntax::is_word_character(c)
}

/// The character classes that the grammars use.
pub enum Class {
    /// `\d`: Unicode decimal digits.
    Digit,
    /// `[0-9]`.
    AsciiDigit,
    /// `[0-9a-fA-F]`.
    HexDigit,
    /// `[0-9.]`.
    DigitOrDot,
    /// `(?i)[A-Za-z0-9_]`.
    CiWord,
    /// `(?i)[A-Za-z0-9_-]`.
    CiSlug,
    /// `(?i)[a-z0-9._-]`.
    CiHost,
    /// `(?i)[A-Za-z0-9]`.
    CiAlnum,
    /// `[^\s'"<>)]`.
    UrlChar,
    /// `[^"']`.
    NotQuote,
    /// `[^"]`.
    NotDoubleQuote,
    /// `[^>]`.
    NotGt,
    /// `[^;]`.
    NotSemicolon,
    /// `\s`.
    Space,
    /// `\w`.
    Word,
}

pub open spec fn class_has(k: Class, c: char) -> bool {
    match k {
        Class::Digit => is_nd(c),
        Class::AsciiDigit => is_ascii_digit(c),
        Class::HexDigit => is_ascii_digit(c) || ('a' <= c && c <= 'f') || ('A' <= c && c <= 'F'),
        Class::DigitOrDot => is_ascii_digit(c) || c == '.',
        Class::CiWord => ci_range(c, 'a', 'z') || is_ascii_digit(c) || c == '_',
        Class::CiSlug => ci_range(c, 'a', 'z') || is_ascii_digit(c) || c == '_' || c == '-',
        Class::CiHost => ci_range(c, 'a', 'z') || is_ascii_digit(c) || c == '.' || c == '_' || c
            == '-',
        Class::CiAlnum => ci_range(c, 'a', 'z') || is_ascii_digit(c),
        Class::UrlChar => !(is_ws(c) || c == '\'' || c == '"' || c == '<' || c == '>' || c == ')'),
        Class::NotQuote => c != '"' && c != '\'',
        Class::NotDoubleQuote => c != '"',
        Class::NotGt => c != '>',
        Class::NotSemicolon => c != ';',
        Class::Space => is_ws(c),
        Class::Word => is_word_char(c),
    }
}

pub fn class_has_exec(k: &Class, c: char) -> (b: bool)
    ensures
        b == class_has(*k, c),
{
    match k {
        Class::Digit => is_nd_exec(c),
        Class::AsciiDigit => '0' <= c && c <= '9',
        Class::HexDigit => ('0' <= c && c <= '9') || ('a' <= c && c <= 'f') || ('A' <= c && c
            <= 'F'),
        Class::DigitOrDot => ('0' <= c && c <= '9') || c == '.',
        Class::CiWord => ci_range_exec(c, 'a', 'z') || ('0' <= c && c <= '9') || c == '_',
        Class::CiSlug => ci_range_exec(c, 'a', 'z') || ('0' <= c && c <= '9') || c == '_' || c
            == '-',
        Class::CiHost => ci_range_exec(c, 'a', 'z') || ('0' <= c && c <= '9') || c == '.' || c
            == '_' || c == '-',
        Class::CiAlnum => ci_range_exec(c, 'a', 'z') || ('0' <= c && c <= '9'),
        Class::UrlChar => !(is_ws_exec(c) || c == '\'' || c == '"' || c == '<' || c == '>' || c
            == ')'),
        Class::NotQuote => c != '"' && c != '\'',
        Class::NotDoubleQuote => c != '"',
        Class::NotGt => c != '>',
        Class::NotSemicolon => c != ';',
        Class::Space => is_ws_exec(c),
        Class::Word => word_char(c),
    }
}

pub open spec fn class_pred(k: Class) -> spec_fn(char) -> bool {
    |c: char| class_has(k, c)
}

/// The end of the maximal run of class characters starting at `i`.
pub open spec fn run_end(u: Seq<char>, i: int, k: Class) -> int {
    i + lead_len(u.subrange(i, u.len() as int), class_pred(k))
}

/// Whether the literal `lit` (lower case) occurs at `i` under case-insensitive
/// matching.
pub open spec fn ci_lit_at(u: Seq<char>, i: int, lit: Seq<char>) -> bool {
    0 <= i && i + lit.len() <= u.len() && forall|k: int|
        0 <= k < lit.len() ==> #[trigger] ci_char(u[i + k], lit[k])
}

/// Whether the literal `lit` occurs exactly at `i`.
pub open spec fn lit_at(u: Seq<char>, i: int, lit: Seq<char>) -> bool {
    0 <= i && i + lit.len() <= u.len() && u.subrange(i, i + lit.len()) =~= lit
}

/// Whether `u[i..]` holds no line feed (what `.*` followed by `$` accepts).
pub open spec fn no_newline_from(u: Seq<char>, i: int) -> bool {
    forall|j: int| i <= j < u.len() ==> u[j] != '\n'
}

pub fn run_end_exec(u: &[char], i: usize, k: Class) -> (r: usize)
    requires
        i <= u.len(),
    ensures
        r == run_end(u@, i as int, k),
        i <= r <= u.len(),
        forall|j: int| i <= j < r ==> class_has(k, #[trigger] u@[j]),
        r < u.len() ==> !class_has(k, u@[r as int]),
{
    let mut j = i;
    while j < u.len() && class_has_exec(&k, u[j])
        invariant
            i <= j <= u.len(),
            forall|m: int| i <= m < j ==> class_has(k, #[trigger] u@[m]),
        decreases u.len() - j,
    {
        j = j + 1;
    }
    proof {
        let t = u@.subrange(i as int, u.len() as int);
        assert forall|m: int| 0 <= m < j - i implies class_pred(k)(#[trigger] t[m]) by {
            assert(t[m] == u@[m + i]);
        }
        if j < u.len() {
            assert(t[j - i] == u@[j as int]);
        }
        lemma_lead_len(t, class_pred(k), j - i);
    }
    j
}

pub fn ci_lit_at_exec(u: &[char], i: usize, lit: &[char]) -> (b: bool)
    ensures
        b == ci_lit_at(u@, i as int, lit@),
{
    if i > u.len() || lit.len() > u.len() - i {
        return false;
    }
    let mut k: usize = 0;
    while k < lit.len()
        invariant
            i + lit.len() <= u.len(),
            k <= lit.len(),
            forall|m: int| 0 <= m < k ==> #[trigger] ci_char(u@[i + m], lit@[m]),
        decreases lit.len() - k,
    {
        if !ci_char_exec(u[i + k], lit[k]) {
            return false;
        }
        k = k + 1;
    }
    true
}

pub fn lit_at_exec(u: &[char], i: usize, lit: &[char]) -> (b: bool)
    ensures
        b == lit_at(u@, i as int, lit@),
{
    let b = crate::text::occurs_at_exec(u, lit, i);
    b
}

pub fn no_newline_from_exec(u: &[char], i: usize) -> (b: bool)
    ensures
        b == no_newline_from(u@, i as int),
{
    let mut j = i;
    while j < u.len()
        invariant
            i <= j,
            forall|m: int| i <= m < j ==> u@[m] != '\n',
        decreases u.len() - j,
    {
        if u[j] == '\n' {
            return false;
        }
        j = j + 1;
    }
    true
}

} // verus!
