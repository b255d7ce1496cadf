//! WNACG output names: safe PDF basenames and the work title of a page.

use crate::naming::{with_ext, with_ext_exec};
use crate::pattern::{
    ci_lit_at, ci_lit_at_exec, class_has, is_word_char, run_end, run_end_exec, word_char, Class,
};
use crate::text::{
    chars_of, ci_range, ci_range_exec, contains, contains_exec, dec_value, digit_val, find_from,
    first_at_or_after, has_char_exec, index_of, index_of_exec, is_ascii_digit, is_control,
    is_control_exec, is_ws, is_ws_exec, lit_then, occurs_at, replace_lit, replace_lit_exec,
    slice_vec, string_of, trim, trim_exec,
};
use vstd::prelude::*;

verus! {

// ---------------------------------------------------------------------------
// Output basenames
// ---------------------------------------------------------------------------

#[derive(Debug, Clone, Copy, PartialEq, Eq, Structural)]
pub enum NameError {
    /// Empty, `.` or `..`.
    EmptyOrDot,
    /// Absolute, separated, or with a drive prefix.
    NotBasename,
    /// Holds a control character.
    ControlChar,
}

impl NameError {
    pub open spec fn spec_message(self) -> Seq<char> {
        match self {
            NameError::EmptyOrDot => "output name must be a non-empty basename, not '.' or '..'"@,
            NameError::NotBasename => "output name must be a basename, not an absolute or separated path"@,
            NameError::ControlChar => "output name must not contain control characters"@,
        }
    }

    pub fn message(&self) -> (m: String)
        ensures
            m@ == self.spec_message(),
    {
        match self {
            NameError::EmptyOrDot => String::from_str(
                "output name must be a non-empty basename, not '.' or '..'",
            ),
            NameError::NotBasename => String::from_str(
                "output name must be a basename, not an absolute or separated path",
            ),
            NameError::ControlChar => String::from_str(
                "output name must not contain control characters",
            ),
        }
    }
}

/// A Windows drive prefix: `(?i)^[a-z]:`.
pub open spec fn has_drive_prefix(n: Seq<char>) -> bool {
    n.len() >= 2 && ci_range(n[0], 'a', 'z') && n[1] == ':'
}

pub open spec fn has_control(n: Seq<char>) -> bool {
    exists|i: int| 0 <= i < n.len() && is_control(#[trigger] n[i])
}

/// The PDF file name for a requested name: trimmed and given `.pdf`, or
/// the rule it breaks. The rules hold on every platform, as the name also
/// goes to the remote.
pub open spec fn spec_output_filename(name: Seq<char>) -> Result<Seq<char>, NameError> {
    let n = trim(name);
    if n.len() == 0 || n == "."@ || n == ".."@ {
        Err(NameError::EmptyOrDot)
    } else if n.contains('/') || n.contains('\\') || has_drive_prefix(n) {
        Err(NameError::NotBasename)
    } else if has_control(n) {
        Err(NameError::ControlChar)
    } else {
        Ok(with_ext(n, ".pdf"@))
    }
}

fn same(a: &[char], lit: &str) -> (b: bool)
    ensures
        b == (a@ == lit@),
{
    let l = chars_of(lit);
    if a.len() != l.len() {
        return false;
    }
    let r = crate::text::starts_with_exec(a, l.as_slice());
    assert(r ==> a@ =~= l@) by {
        if r {
            assert(a@.take(l@.len() as int) =~= a@);
        }
    }
    r
}

fn output_filename_chars(name: &[char]) -> (r: Result<Vec<char>, NameError>)
    ensures
        match r {
            Ok(n) => spec_output_filename(name@) == Ok::<Seq<char>, NameError>(n@),
            Err(e) => spec_output_filename(name@) == Err::<Seq<char>, NameError>(e),
        },
{
    let n = trim_exec(name);
    if n.len() == 0 || same(n.as_slice(), ".") || same(n.as_slice(), "..") {
        return Err(NameError::EmptyOrDot);
    }
    let drive = n.len() >= 2 && ci_range_exec(n[0], 'a', 'z') && n[1] == ':';
    if has_char_exec(n.as_slice(), '/') || has_char_exec(n.as_slice(), '\\') || drive {
        return Err(NameError::NotBasename);
    }
    let mut i: usize = 0;
    while i < n.len()
        invariant
            i <= n.len(),
            n@ == trim(name@),
            !(n@.len() == 0 || n@ == "."@ || n@ == ".."@),
            !(n@.contains('/') || n@.contains('\\') || has_drive_prefix(n@)),
            forall|j: int| 0 <= j < i ==> !is_control(#[trigger] n@[j]),
        decreases n.len() - i,
    {
        if is_control_exec(n[i]) {
            assert(has_control(n@)) by {
                assert(is_control(n@[i as int]));
            }
            return Err(NameError::ControlChar);
        }
        i = i + 1;
    }
    Ok(with_ext_exec(n.as_slice(), ".pdf"))
}

/// Checks an output basename and gives it the `.pdf` ending (kept in any
/// ASCII case when present).
pub fn output_filename(name: &str) -> (r: Result<String, NameError>)
    ensures
        match r {
            Ok(n) => spec_output_filename(name@) == Ok::<Seq<char>, NameError>(n@),
            Err(e) => spec_output_filename(name@) == Err::<Seq<char>, NameError>(e),
        },
{
    let v = chars_of(name);
    match output_filename_chars(v.as_slice()) {
        Ok(n) => Ok(string_of(n.as_slice())),
        Err(e) => Err(e),
    }
}

/// `name`, with `.pdf` appended unless it already ends so (any ASCII case).
pub fn ensure_pdf(name: &str) -> (r: String)
    ensures
        r@ == with_ext(name@, ".pdf"@),
{
    crate::naming::ensure_ext(name, ".pdf")
}

// ---------------------------------------------------------------------------
// HTML entities
// ---------------------------------------------------------------------------

pub open spec fn hex_digit_val(c: char) -> nat {
    if is_ascii_digit(c) {
        ((c as u32) - 48) as nat
    } else if 'a' <= c && c <= 'f' {
        ((c as u32) - 87) as nat
    } else if 'A' <= c && c <= 'F' {
        ((c as u32) - 55) as nat
    } else {
        0
    }
}

/// The value of a string of hexadecimal digits.
pub open spec fn hex_value(s: Seq<char>) -> nat
    decreases s.len(),
{
    if s.len() == 0 {
        0
    } else {
        hex_value(s.drop_last()) * 16 + hex_digit_val(s.last())
    }
}

/// The character of a code point, or U+FFFD where there is none.
pub open spec fn code_point_char(n: nat) -> char {
    if n <= 0x10FFFF && !(0xD800 <= n <= 0xDFFF) {
        n as char
    } else {
        '\u{FFFD}'
    }
}

/// `char::from_u32`: `Some` of the character with that code point exactly
/// when there is one (not a surrogate, not past U+10FFFF).
#[verifier::external_body]
fn char_from_u32(v: u32) -> (r: Option<char>)
    ensures
        (v <= 0x10FFFF && !(0xD800 <= v <= 0xDFFF)) ==> r == Some(v as char),
        !(v <= 0x10FFFF && !(0xD800 <= v <= 0xDFFF)) ==> r is None,
{
    char::from_u32(v)
}

/// A numeric character reference `&#x[0-9a-fA-F]+;` or `&#[0-9]+;` at `q`:
/// where it ends and the character it stands for.
pub open spec fn entity_at(u: Seq<char>, q: int) -> Option<(int, char)> {
    if !(0 <= q && q + 2 <= u.len() && u[q] == '&' && u[q + 1] == '#') {
        None
    } else if q + 2 < u.len() && u[q + 2] == 'x' {
        let h = run_end(u, q + 3, Class::HexDigit);
        if h > q + 3 && h < u.len() && u[h] == ';' {
            Some((h + 1, code_point_char(hex_value(u.subrange(q + 3, h)))))
        } else {
            None
        }
    } else {
        let d = run_end(u, q + 2, Class::AsciiDigit);
        if d > q + 2 && d < u.len() && u[d] == ';' {
            Some((d + 1, code_point_char(dec_value(u.subrange(q + 2, d)))))
        } else {
            None
        }
    }
}

/// `u[from..]` with every numeric character reference replaced.
pub open spec fn unescape_numeric(u: Seq<char>, from: int) -> Seq<char>
    decreases u.len() - from,
{
    if from < 0 || from >= u.len() {
        Seq::empty()
    } else {
        match entity_at(u, from) {
            Some((e, c)) => if from < e <= u.len() {
                seq![c] + unescape_numeric(u, e)
            } else {
                Seq::empty()
            },
            None => seq![u[from]] + unescape_numeric(u, from + 1),
        }
    }
}

/// The named references `&amp;`, `&lt;`, `&gt;`, `&quot;`, `&#39;` read,
/// in that order, then every numeric reference.
pub open spec fn spec_html_unescape(v: Seq<char>) -> Seq<char> {
    let o = replace_lit(
        replace_lit(
            replace_lit(replace_lit(replace_lit(v, "&amp;"@, "&"@), "&lt;"@, "<"@), "&gt;"@, ">"@),
            "&quot;"@,
            "\""@,
        ),
        "&#39;"@,
        "'"@,
    );
    unescape_numeric(o, 0)
}

proof fn lemma_hex_value_monotone(s: Seq<char>, k: int)
    requires
        0 <= k <= s.len(),
    ensures
        hex_value(s.take(k)) <= hex_value(s),
    decreases s.len() - k,
{
    if k < s.len() {
        lemma_hex_value_monotone(s, k + 1);
        assert(s.take(k + 1).drop_last() =~= s.take(k));
    } else {
        assert(s.take(k) =~= s);
    }
}

proof fn lemma_dec_value_grows(s: Seq<char>, k: int)
    requires
        0 <= k <= s.len(),
    ensures
        dec_value(s.take(k)) <= dec_value(s),
{
    crate::text::lemma_dec_value_monotone(s, k);
}

/// The character that a run of digits names (hexadecimal when `hex`).
fn entity_char(digits: &[char], hex: bool) -> (c: char)
    requires
        forall|j: int| 0 <= j < digits.len() ==> class_has(
            if hex {
                Class::HexDigit
            } else {
                Class::AsciiDigit
            },
            #[trigger] digits@[j],
        ),
    ensures
        c == code_point_char(
            if hex {
                hex_value(digits@)
            } else {
                dec_value(digits@)
            },
        ),
{
    let ghost value = |s: Seq<char>|
        if hex {
            hex_value(s)
        } else {
            dec_value(s)
        };
    let base: u64 = if hex {
        16
    } else {
        10
    };
    let mut acc: u64 = 0;
    let mut big = false;
    let mut i: usize = 0;
    while i < digits.len()
        invariant
            i <= digits.len(),
            base == (if hex {
                16u64
            } else {
                10u64
            }),
            forall|j: int| 0 <= j < digits.len() ==> class_has(
                if hex {
                    Class::HexDigit
                } else {
                    Class::AsciiDigit
                },
                #[trigger] digits@[j],
            ),
            value == (|s: Seq<char>|
                if hex {
                    hex_value(s)
                } else {
                    dec_value(s)
                }),
            big ==> value(digits@.take(i as int)) > 0x10FFFF,
            !big ==> acc == value(digits@.take(i as int)) && acc <= 0x10FFFF,
        decreases digits.len() - i,
    {
        let c = digits[i];
        let dv: u64 = if '0' <= c && c <= '9' {
            ((c as u32) - 48) as u64
        } else if 'a' <= c && c <= 'f' {
            ((c as u32) - 87) as u64
        } else {
            ((c as u32) - 55) as u64
        };
        assert(digits@.take(i + 1).drop_last() =~= digits@.take(i as int));
        assert(digits@.take(i + 1).last() == c);
        assert(dv == (if hex {
            hex_digit_val(c)
        } else {
            digit_val(c)
        }));
        if !big {
            acc = acc * base + dv;
            if acc > 0x10FFFF {
                big = true;
            }
        } else {
            assert(value(digits@.take(i + 1)) >= value(digits@.take(i as int))) by (nonlinear_arith)
                requires
                    value(digits@.take(i + 1)) == value(digits@.take(i as int)) * base + dv,
                    base >= 10,
            ;
        }
        i = i + 1;
    }
    assert(digits@.take(digits.len() as int) =~= digits@);
    if big {
        return '\u{FFFD}';
    }
    match char_from_u32(acc as u32) {
        Some(c) => c,
        None => '\u{FFFD}',
    }
}

fn entity_at_exec(u: &[char], q: usize) -> (r: Option<(usize, char)>)
    requires
        q < u.len(),
    ensures
        match r {
            Some((e, c)) => entity_at(u@, q as int) == Some((e as int, c)) && q < e <= u.len(),
            None => entity_at(u@, q as int) is None,
        },
{
    if !(u.len() - q >= 2 && u[q] == '&' && u[q + 1] == '#') {
        return None;
    }
    if u.len() - q > 2 && u[q + 2] == 'x' {
        let h = run_end_exec(u, q + 3, Class::HexDigit);
        if h > q + 3 && h < u.len() && u[h] == ';' {
            let digits = slice_vec(u, q + 3, h);
            let c = entity_char(digits.as_slice(), true);
            Some((h + 1, c))
        } else {
            None
        }
    } else {
        let d = run_end_exec(u, q + 2, Class::AsciiDigit);
        if d > q + 2 && d < u.len() && u[d] == ';' {
            let digits = slice_vec(u, q + 2, d);
            let c = entity_char(digits.as_slice(), false);
            Some((d + 1, c))
        } else {
            None
        }
    }
}

fn replace_named(v: &[char], pat: &str, rep: &str) -> (r: Vec<char>)
    requires
        pat@.len() > 0,
    ensures
        r@ == replace_lit(v@, pat@, rep@),
{
    let p = chars_of(pat);
    let q = chars_of(rep);
    replace_lit_exec(v, p.as_slice(), q.as_slice())
}

/// Reads the HTML character references that page titles use: `&amp;`,
/// `&lt;`, `&gt;`, `&quot;`, `&#39;`, and numeric ones (U+FFFD for a
/// number that names no character).
pub fn html_unescape(value: &str) -> (r: String)
    ensures
        r@ == spec_html_unescape(value@),
{
    proof {
        reveal_strlit("&amp;");
        reveal_strlit("&lt;");
        reveal_strlit("&gt;");
        reveal_strlit("&quot;");
        reveal_strlit("&#39;");
    }
    let v = chars_of(value);
    let a = replace_named(v.as_slice(), "&amp;", "&");
    let b = replace_named(a.as_slice(), "&lt;", "<");
    let c = replace_named(b.as_slice(), "&gt;", ">");
    let d = replace_named(c.as_slice(), "&quot;", "\"");
    let o = replace_named(d.as_slice(), "&#39;", "'");
    let mut out: Vec<char> = Vec::new();
    let mut i: usize = 0;
    while i < o.len()
        invariant
            i <= o.len(),
            unescape_numeric(o@, 0) == out@ + unescape_numeric(o@, i as int),
        decreases o.len() - i,
    {
        match entity_at_exec(o.as_slice(), i) {
            Some((e, ch)) => {
                let ghost before = out@;
                out.push(ch);
                assert(out@ + unescape_numeric(o@, e as int) =~= before + (seq![ch]
                    + unescape_numeric(o@, e as int)));
                i = e;
            },
            None => {
                let ghost before = out@;
                out.push(o[i]);
                assert(out@ + unescape_numeric(o@, i + 1) =~= before + (seq![o@[i as int]]
                    + unescape_numeric(o@, i + 1)));
                i = i + 1;
            },
        }
    }
    assert(out@ + unescape_numeric(o@, i as int) =~= out@);
    string_of(out.as_slice())
}

// ---------------------------------------------------------------------------
// Work titles
// ---------------------------------------------------------------------------

/// The title with a leading `[creator] ` credit removed: a non-blank
/// bracketed field at the start, followed by the end or white space.
pub open spec fn spec_strip_credit(title: Seq<char>) -> Seq<char> {
    let t = trim(title);
    if t.len() > 0 && t[0] == '[' {
        let rest = t.drop_first();
        match index_of(rest, ']') {
            Some(i) => {
                let creator = rest.take(i as int);
                let remainder = rest.skip(i as int + 1);
                if trim(creator).len() > 0 && (remainder.len() == 0 || is_ws(remainder[0])) {
                    trim(remainder)
                } else {
                    t
                }
            },
            None => t,
        }
    } else {
        t
    }
}

fn strip_leading_creator_credit(title: &[char]) -> (r: Vec<char>)
    ensures
        r@ == spec_strip_credit(title@),
{
    let t = trim_exec(title);
    if t.len() > 0 && t[0] == '[' {
        let rest = slice_vec(t.as_slice(), 1, t.len());
        assert(rest@ =~= t@.drop_first());
        match index_of_exec(rest.as_slice(), ']') {
            Some(i) => {
                let creator = slice_vec(rest.as_slice(), 0, i);
                let remainder = slice_vec(rest.as_slice(), i + 1, rest.len());
                assert(creator@ =~= rest@.take(i as int));
                assert(remainder@ =~= rest@.skip(i + 1));
                let ct = trim_exec(creator.as_slice());
                if ct.len() > 0 && (remainder.len() == 0 || is_ws_exec(remainder[0])) {
                    return trim_exec(remainder.as_slice());
                }
                t
            },
            None => t,
        }
    } else {
        t
    }
}

/// The first index where `p` occurs in `s`.
pub open spec fn find_lit(s: Seq<char>, p: Seq<char>) -> Option<int> {
    if exists|i: int| first_at_or_after(s, p, 0, i) {
        Some(choose|i: int| first_at_or_after(s, p, 0, i))
    } else {
        None
    }
}

fn find_lit_exec(s: &[char], p: &[char]) -> (r: Option<usize>)
    ensures
        match r {
            Some(i) => find_lit(s@, p@) == Some(i as int) && i + p.len() <= s.len(),
            None => find_lit(s@, p@) is None,
        },
{
    match find_from(s, p, 0) {
        Some(i) => {
            assert(first_at_or_after(s@, p@, 0, i as int));
            let ghost j = choose|j: int| first_at_or_after(s@, p@, 0, j);
            assert(j == i) by {
                if j < i {
                    assert(!occurs_at(s@, p@, j));
                }
                if i < j {
                    assert(!occurs_at(s@, p@, i as int));
                }
            }
            Some(i)
        },
        None => {
            assert(!exists|i: int| first_at_or_after(s@, p@, 0, i));
            None
        },
    }
}

/// The first `t >= from` where `lit` occurs, case-insensitively.
pub open spec fn first_ci_lit(u: Seq<char>, from: int, lit: Seq<char>) -> Option<int>
    decreases u.len() - from,
{
    if from < 0 || from >= u.len() {
        None
    } else if ci_lit_at(u, from, lit) {
        Some(from)
    } else {
        first_ci_lit(u, from + 1, lit)
    }
}

/// The title captured by the first match of
/// `(?is)<title\b[^>]*>(?P<title>.*?)</title>` at or after `from`.
pub open spec fn title_from(u: Seq<char>, from: int) -> Option<Seq<char>>
    decreases u.len() - from,
{
    if from < 0 || from >= u.len() {
        None
    } else {
        let g = run_end(u, from + 6, Class::NotGt);
        let close = first_ci_lit(u, g + 1, "</title>"@);
        if ci_lit_at(u, from, "<title"@) && (from + 6 == u.len() || !is_word_char(u[from + 6]))
            && g < u.len() && close is Some {
            Some(u.subrange(g + 1, close->0))
        } else {
            title_from(u, from + 1)
        }
    }
}

fn first_ci_lit_exec(u: &[char], from: usize, lit: &[char]) -> (r: Option<usize>)
    requires
        from <= u.len(),
    ensures
        match r {
            Some(t) => first_ci_lit(u@, from as int, lit@) == Some(t as int) && from <= t < u.len(),
            None => first_ci_lit(u@, from as int, lit@) is None,
        },
{
    let mut t = from;
    while t < u.len()
        invariant
            from <= t <= u.len(),
            first_ci_lit(u@, from as int, lit@) == first_ci_lit(u@, t as int, lit@),
        decreases u.len() - t,
    {
        if ci_lit_at_exec(u, t, lit) {
            return Some(t);
        }
        t = t + 1;
    }
    None
}

/// Why no file name came out of a work page's title.
#[derive(Debug, Clone, Copy, PartialEq, Eq, Structural)]
pub enum TitleError {
    NoTitle,
    Unrecognized,
    Ambiguous,
    Name(NameError),
}

impl TitleError {
    pub open spec fn spec_message(self) -> Seq<char> {
        match self {
            TitleError::NoTitle => "could not extract a WNACG work title; pass --name with a safe PDF basename"@,
            TitleError::Unrecognized => "WNACG title format is unrecognized; pass --name with a safe PDF basename"@,
            TitleError::Ambiguous => "WNACG work title is missing or ambiguous; pass --name with a safe PDF basename"@,
            TitleError::Name(e) => e.spec_message(),
        }
    }

    pub fn message(&self) -> (m: String)
        ensures
            m@ == self.spec_message(),
    {
        match self {
            TitleError::NoTitle => String::from_str(
                "could not extract a WNACG work title; pass --name with a safe PDF basename",
            ),
            TitleError::Unrecognized => String::from_str(
                "WNACG title format is unrecognized; pass --name with a safe PDF basename",
            ),
            TitleError::Ambiguous => String::from_str(
                "WNACG work title is missing or ambiguous; pass --name with a safe PDF basename",
            ),
            TitleError::Name(e) => e.message(),
        }
    }
}

/// The PDF name that a work page's `<title>` gives: the work part before
/// ` - 列表 - ` (site branding with `紳士漫畫` after it), without the
/// creator credit, checked as an output basename.
pub open spec fn spec_title_filename(html: Seq<char>) -> Result<Seq<char>, TitleError> {
    match title_from(html, 0) {
        None => Err(TitleError::NoTitle),
        Some(t) => {
            let raw = spec_html_unescape(t);
            match find_lit(raw, " - 列表 - "@) {
                None => Err(TitleError::Unrecognized),
                Some(i) => {
                    let suffix = raw.skip(i + " - 列表 - "@.len());
                    if trim(suffix).len() == 0 || !contains(suffix, "紳士漫畫"@) {
                        Err(TitleError::Unrecognized)
                    } else {
                        let title = spec_strip_credit(raw.take(i));
                        if title.len() == 0 || contains(title, "列表"@) || contains(
                            title,
                            "紳士漫畫"@,
                        ) || contains(title, "專註分享"@) || contains(title, "邪惡漫畫"@) {
                            Err(TitleError::Ambiguous)
                        } else {
                            match spec_output_filename(title) {
                                Ok(n) => Ok(n),
                                Err(e) => Err(TitleError::Name(e)),
                            }
                        }
                    }
                },
            }
        },
    }
}

fn title_from_exec(u: &[char]) -> (r: Option<Vec<char>>)
    ensures
        match r {
            Some(t) => title_from(u@, 0) == Some(t@),
            None => title_from(u@, 0) is None,
        },
{
    let open_tag = chars_of("<title");
    let close_tag = chars_of("</title>");
    proof {
        reveal_strlit("<title");
    }
    let mut p: usize = 0;
    while p < u.len()
        invariant
            p <= u.len(),
            open_tag@ == "<title"@,
            close_tag@ == "</title>"@,
            title_from(u@, 0) == title_from(u@, p as int),
        decreases u.len() - p,
    {
        proof {
            reveal_strlit("<title");
        }
        if ci_lit_at_exec(u, p, open_tag.as_slice()) && (u.len() - p == 6 || !word_char(u[p + 6])) {
            let g = run_end_exec(u, p + 6, Class::NotGt);
            if g < u.len() {
                match first_ci_lit_exec(u, g + 1, close_tag.as_slice()) {
                    Some(c) => {
                        return Some(slice_vec(u, g + 1, c));
                    },
                    None => {},
                }
            }
        }
        p = p + 1;
    }
    None
}

/// The PDF file name given by the work title in a work page.
pub fn filename_from_work_title(html: &str) -> (r: Result<String, TitleError>)
    ensures
        match r {
            Ok(n) => spec_title_filename(html@) == Ok::<Seq<char>, TitleError>(n@),
            Err(e) => spec_title_filename(html@) == Err::<Seq<char>, TitleError>(e),
        },
{
    let u = chars_of(html);
    let t = match title_from_exec(u.as_slice()) {
        Some(t) => t,
        None => return Err(TitleError::NoTitle),
    };
    let raw = chars_of(html_unescape(string_of(t.as_slice()).as_str()).as_str());
    let sep = chars_of(" - 列表 - ");
    let i = match find_lit_exec(raw.as_slice(), sep.as_slice()) {
        Some(i) => i,
        None => return Err(TitleError::Unrecognized),
    };
    let suffix = slice_vec(raw.as_slice(), i + sep.len(), raw.len());
    assert(suffix@ =~= raw@.skip(i + sep@.len()));
    let brand = chars_of("紳士漫畫");
    if trim_exec(suffix.as_slice()).len() == 0 || !contains_exec(suffix.as_slice(), brand.as_slice()) {
        return Err(TitleError::Unrecognized);
    }
    let work = slice_vec(raw.as_slice(), 0, i);
    assert(work@ =~= raw@.take(i as int));
    let title = strip_leading_creator_credit(work.as_slice());
    let b1 = chars_of("列表");
    let b3 = chars_of("專註分享");
    let b4 = chars_of("邪惡漫畫");
    if title.len() == 0 || contains_exec(title.as_slice(), b1.as_slice()) || contains_exec(
        title.as_slice(),
        brand.as_slice(),
    ) || contains_exec(title.as_slice(), b3.as_slice()) || contains_exec(
        title.as_slice(),
        b4.as_slice(),
    ) {
        return Err(TitleError::Ambiguous);
    }
    match output_filename_chars(title.as_slice()) {
        Ok(n) => Ok(string_of(n.as_slice())),
        Err(e) => Err(TitleError::Name(e)),
    }
}

} // verus!
