//! Unpacking the player's packed script (the `eval(function(p,a,c,k,e,d)...)`
//! packer): its payload with every base-`a` word token replaced by its
//! entry in the word list.

use crate::pattern::{is_word_char, lit_at, lit_at_exec, run_end, run_end_exec, word_char, Class};
use crate::pornavhd::packer::{extract_hls_links, spec_extract, HlsError, HlsLinks, HlsView};
use crate::text::{
    chars_of, is_char, occurs_at, occurs_at_exec, parse_u64, parse_u64_exec, replace_lit,
    replace_lit_exec, slice_vec, split_by, split_exec, string_of, views, Sep,
};
use vstd::prelude::*;

verus! {

#[derive(Debug, Clone, Copy, PartialEq, Eq, Structural)]
pub enum PackerError {
    /// No packed script in the page.
    NotFound,
    /// The base is no number.
    Base,
    /// The word count is no number.
    Count,
}

impl PackerError {
    pub open spec fn spec_message(self) -> Seq<char> {
        match self {
            PackerError::NotFound => "packer not found — page/host changed"@,
            PackerError::Base => "packer base"@,
            PackerError::Count => "packer count"@,
        }
    }

    pub fn message(&self) -> (m: String)
        ensures
            m@ == self.spec_message(),
    {
        match self {
            PackerError::NotFound => String::from_str("packer not found — page/host changed"),
            PackerError::Base => String::from_str("packer base"),
            PackerError::Count => String::from_str("packer count"),
        }
    }
}

// ---------------------------------------------------------------------------
// The packer call
// ---------------------------------------------------------------------------

/// The text of the packer function, up to its first argument.
pub open spec fn packer_head() -> Seq<char> {
    "eval(function(p,a,c,k,e,d){while(c--)if(k[c])p=p.replace(new RegExp('\\\\b'+c.toString(a)+'\\\\b','g'),k[c]);return p}('"@
}

/// Where the longest run of `(?:\\.|[^'\\])` units from `i` ends: escapes
/// (a backslash and any character but a line feed) and characters other
/// than `'` and `\`.
pub open spec fn units_end(u: Seq<char>, i: int) -> int
    decreases u.len() - i,
{
    if i < 0 || i >= u.len() {
        i
    } else if u[i] == '\\' {
        if i + 1 < u.len() && u[i + 1] != '\n' {
            units_end(u, i + 2)
        } else {
            i
        }
    } else if u[i] != '\'' {
        units_end(u, i + 1)
    } else {
        i
    }
}

/// A packer call at `p`: its payload, base, count and word list, as text.
pub open spec fn packer_at(u: Seq<char>, p: int) -> Option<(Seq<char>, Seq<char>, Seq<char>, Seq<char>)> {
    let g1s = p + packer_head().len();
    let g1e = units_end(u, g1s);
    let d1s = g1e + 2;
    let d1e = run_end(u, d1s, Class::Digit);
    let d2s = d1e + 1;
    let d2e = run_end(u, d2s, Class::Digit);
    let g4s = d2e + 2;
    let g4e = units_end(u, g4s);
    if lit_at(u, p, packer_head()) && lit_at(u, g1e, "',"@) && d1e > d1s && d1e < u.len() && u[d1e]
        == ',' && d2e > d2s && lit_at(u, d2e, ",'"@) && lit_at(u, g4e, "'.split('|')))"@) {
        Some(
            (
                u.subrange(g1s, g1e),
                u.subrange(d1s, d1e),
                u.subrange(d2s, d2e),
                u.subrange(g4s, g4e),
            ),
        )
    } else {
        None
    }
}

pub open spec fn first_packer(u: Seq<char>, from: int) -> Option<
    (Seq<char>, Seq<char>, Seq<char>, Seq<char>),
>
    decreases u.len() - from,
{
    if from < 0 || from >= u.len() {
        None
    } else {
        match packer_at(u, from) {
            Some(m) => Some(m),
            None => first_packer(u, from + 1),
        }
    }
}

// ---------------------------------------------------------------------------
// Tokens
// ---------------------------------------------------------------------------

/// The packer's digit alphabet.
pub open spec fn base_digit(d: nat) -> char {
    if d < 10 {
        (48 + d) as char
    } else {
        (87 + d) as char
    }
}

/// The digits of `n > 0` in base `b`, most significant first.
pub open spec fn base_digits(n: nat, b: nat) -> Seq<char>
    decreases n,
{
    if n == 0 || b < 2 {
        Seq::empty()
    } else {
        proof {
            assert(n / b < n) by (nonlinear_arith)
                requires
                    n > 0,
                    b >= 2,
            ;
        }
        base_digits(n / b, b).push(base_digit(n % b))
    }
}

/// The token of word `n` in base `b`.
pub open spec fn token(n: nat, b: nat) -> Seq<char> {
    if n == 0 {
        seq!['0']
    } else {
        base_digits(n, b)
    }
}

/// Every base-`b` digit of `n` is in the 36-letter alphabet.
pub open spec fn digits_fit(n: nat, b: nat) -> bool
    decreases n,
{
    if n == 0 || b < 2 {
        true
    } else {
        proof {
            assert(n / b < n) by (nonlinear_arith)
                requires
                    n > 0,
                    b >= 2,
            ;
        }
        n % b < 36 && digits_fit(n / b, b)
    }
}

/// The token of `n` can be written: `0`, or a base of at least 2 in which
/// every digit is in the alphabet.
pub open spec fn token_ok(n: nat, b: nat) -> bool {
    n == 0 || (b >= 2 && digits_fit(n, b))
}

fn token_exec(n: usize, b: usize) -> (r: Vec<char>)
    requires
        token_ok(n as nat, b as nat),
    ensures
        r@ == token(n as nat, b as nat),
{
    if n == 0 {
        let mut r: Vec<char> = Vec::new();
        r.push('0');
        assert(r@ =~= seq!['0']);
        return r;
    }
    let mut digits: Vec<char> = Vec::new();
    let mut m = n;
    while m > 0
        invariant
            b >= 2,
            digits_fit(m as nat, b as nat),
            m <= n,
            base_digits(n as nat, b as nat) == base_digits(m as nat, b as nat) + digits@.reverse(),
        decreases m,
    {
        let d = m % b;
        let c: char = if d < 10 {
            ((48 + d) as u8) as char
        } else {
            ((87 + d) as u8) as char
        };
        assert(c == base_digit(d as nat));
        let ghost before = digits@;
        digits.push(c);
        assert(digits@.reverse() =~= seq![c] + before.reverse());
        assert(base_digits(m as nat, b as nat) == base_digits((m / b) as nat, b as nat).push(c));
        assert(base_digits((m / b) as nat, b as nat).push(c) + before.reverse() =~= base_digits(
            (m / b) as nat,
            b as nat,
        ) + digits@.reverse());
        m = m / b;
    }
    let mut r: Vec<char> = Vec::new();
    let mut i = digits.len();
    while i > 0
        invariant
            i <= digits.len(),
            r@ =~= digits@.skip(i as int).reverse(),
        decreases i,
    {
        i = i - 1;
        r.push(digits[i]);
        assert(digits@.skip(i as int).reverse() =~= digits@.skip(i + 1).reverse().push(
            digits@[i as int],
        ));
    }
    assert(digits@.skip(0) =~= digits@);
    assert(base_digits(0, b as nat) =~= Seq::<char>::empty());
    assert(base_digits(n as nat, b as nat) =~= digits@.reverse());
    r
}

// ---------------------------------------------------------------------------
// Replacement text
// ---------------------------------------------------------------------------

/// `[0-9A-Za-z_]`: a letter of an unbraced group name.
pub open spec fn is_cap_letter(c: char) -> bool {
    ('0' <= c && c <= '9') || ('a' <= c && c <= 'z') || ('A' <= c && c <= 'Z') || c == '_'
}

pub open spec fn cap_letter_end(r: Seq<char>, i: int) -> int
    decreases r.len() - i,
{
    if 0 <= i < r.len() && is_cap_letter(r[i]) {
        cap_letter_end(r, i + 1)
    } else {
        i
    }
}

/// The first `}` at or after `i`.
pub open spec fn close_brace(r: Seq<char>, i: int) -> Option<int>
    decreases r.len() - i,
{
    if i < 0 || i >= r.len() {
        None
    } else if r[i] == '}' {
        Some(i)
    } else {
        close_brace(r, i + 1)
    }
}

/// A group reference at the start of `r` (which starts with `$`): its
/// name and where it ends.
pub open spec fn cap_ref(r: Seq<char>) -> Option<(Seq<char>, int)> {
    if r.len() <= 1 {
        None
    } else if r[1] == '{' {
        match close_brace(r, 2) {
            Some(j) => Some((r.subrange(2, j), j + 1)),
            None => None,
        }
    } else {
        let e = cap_letter_end(r, 1);
        if e == 1 {
            None
        } else {
            Some((r.subrange(1, e), e))
        }
    }
}

/// The replacement text `rep` with its group references read (as
/// `regex` does for a `&str` replacement), for a match `whole` of a
/// pattern whose only group is the whole match: `$$` is `$`, a reference
/// to group 0 is the match, any other reference is empty, and a `$`
/// without a reference stays.
pub open spec fn expand(rep: Seq<char>, whole: Seq<char>) -> Seq<char>
    decreases rep.len(),
{
    if rep.len() == 0 {
        Seq::empty()
    } else if rep[0] != '$' {
        seq![rep[0]] + expand(rep.drop_first(), whole)
    } else if rep.len() >= 2 && rep[1] == '$' {
        seq!['$'] + expand(rep.skip(2), whole)
    } else {
        match cap_ref(rep) {
            None => seq!['$'] + expand(rep.drop_first(), whole),
            Some((name, end)) => if 1 <= end <= rep.len() {
                (if parse_u64(name) == Some(0u64) {
                    whole
                } else {
                    Seq::empty()
                }) + expand(rep.skip(end), whole)
            } else {
                Seq::empty()
            },
        }
    }
}

fn cap_ref_exec(r: &[char], i: usize) -> (res: Option<(Vec<char>, usize)>)
    requires
        i < r.len(),
        r@[i as int] == '$',
    ensures
        match res {
            Some((name, end)) => cap_ref(r@.skip(i as int)) == Some((name@, (end - i) as int)) && i
                < end <= r.len(),
            None => cap_ref(r@.skip(i as int)) is None,
        },
{
    let ghost s = r@.skip(i as int);
    if r.len() - i <= 1 {
        return None;
    }
    if r[i + 1] == '{' {
        let mut j = i + 2;
        while j < r.len() && r[j] != '}'
            invariant
                i + 2 <= j <= r.len(),
                s == r@.skip(i as int),
                close_brace(s, 2) == close_brace(s, (j - i) as int),
            decreases r.len() - j,
        {
            assert(s[(j - i) as int] == r@[j as int]);
            j = j + 1;
        }
        if j < r.len() {
            assert(s[(j - i) as int] == r@[j as int]);
            let name = slice_vec(r, i + 2, j);
            assert(name@ =~= s.subrange(2, (j - i) as int));
            Some((name, j + 1))
        } else {
            None
        }
    } else {
        let mut e = i + 1;
        while e < r.len() && (('0' <= r[e] && r[e] <= '9') || ('a' <= r[e] && r[e] <= 'z') || (
        'A' <= r[e] && r[e] <= 'Z') || r[e] == '_')
            invariant
                i + 1 <= e <= r.len(),
                s == r@.skip(i as int),
                cap_letter_end(s, 1) == cap_letter_end(s, (e - i) as int),
            decreases r.len() - e,
        {
            assert(s[(e - i) as int] == r@[e as int]);
            e = e + 1;
        }
        if e < r.len() {
            assert(s[(e - i) as int] == r@[e as int]);
        }
        if e == i + 1 {
            None
        } else {
            let name = slice_vec(r, i + 1, e);
            assert(name@ =~= s.subrange(1, (e - i) as int));
            Some((name, e))
        }
    }
}

fn expand_exec(rep: &[char], whole: &[char]) -> (r: Vec<char>)
    ensures
        r@ == expand(rep@, whole@),
{
    let mut out: Vec<char> = Vec::new();
    let mut i: usize = 0;
    assert(rep@.skip(0) =~= rep@);
    while i < rep.len()
        invariant
            i <= rep.len(),
            expand(rep@, whole@) == out@ + expand(rep@.skip(i as int), whole@),
        decreases rep.len() - i,
    {
        let ghost s = rep@.skip(i as int);
        let ghost before = out@;
        assert(s[0] == rep@[i as int]);
        if rep[i] != '$' {
            out.push(rep[i]);
            assert(s.drop_first() =~= rep@.skip(i + 1));
            assert(out@ + expand(rep@.skip(i + 1), whole@) =~= before + (seq![rep@[i as int]]
                + expand(rep@.skip(i + 1), whole@)));
            i = i + 1;
        } else if rep.len() - i >= 2 && rep[i + 1] == '$' {
            assert(s[1] == rep@[i + 1]);
            out.push('$');
            assert(s.skip(2) =~= rep@.skip(i + 2));
            assert(out@ + expand(rep@.skip(i + 2), whole@) =~= before + (seq!['$'] + expand(
                rep@.skip(i + 2),
                whole@,
            )));
            i = i + 2;
        } else {
            if rep.len() - i >= 2 {
                assert(s[1] == rep@[i + 1]);
            }
            match cap_ref_exec(rep, i) {
                None => {
                    out.push('$');
                    assert(s.drop_first() =~= rep@.skip(i + 1));
                    assert(out@ + expand(rep@.skip(i + 1), whole@) =~= before + (seq!['$']
                        + expand(rep@.skip(i + 1), whole@)));
                    i = i + 1;
                },
                Some((name, end)) => {
                    let is_zero = match parse_u64_exec(name.as_slice()) {
                        Some(v) => v == 0,
                        None => false,
                    };
                    if is_zero {
                        let mut k: usize = 0;
                        while k < whole.len()
                            invariant
                                k <= whole.len(),
                                out@ =~= before + whole@.take(k as int),
                            decreases whole.len() - k,
                        {
                            out.push(whole[k]);
                            k = k + 1;
                        }
                        assert(whole@.take(whole.len() as int) =~= whole@);
                    }
                    assert(s.skip((end - i) as int) =~= rep@.skip(end as int));
                    assert(out@ + expand(rep@.skip(end as int), whole@) =~= before + ((if parse_u64(
                        name@,
                    ) == Some(0u64) {
                        whole@
                    } else {
                        Seq::<char>::empty()
                    }) + expand(rep@.skip(end as int), whole@)));
                    i = end;
                },
            }
        }
    }
    assert(rep@.skip(i as int) =~= Seq::<char>::empty());
    assert(out@ + Seq::<char>::empty() =~= out@);
    out
}

// ---------------------------------------------------------------------------
// Word replacement
// ---------------------------------------------------------------------------

/// `\b{token}\b` at `q` (the token being word characters).
pub open spec fn word_at(p: Seq<char>, t: Seq<char>, q: int) -> bool {
    occurs_at(p, t, q) && (q == 0 || !is_word_char(p[q - 1])) && (q + t.len() == p.len()
        || !is_word_char(p[q + t.len()]))
}

/// `p[from..]` with every whole-word occurrence of `t`, left to right,
/// replaced by the expansion of `rep`.
pub open spec fn replace_words(p: Seq<char>, t: Seq<char>, rep: Seq<char>, from: int) -> Seq<char>
    decreases p.len() - from,
{
    if from < 0 || from >= p.len() || t.len() == 0 {
        if 0 <= from <= p.len() {
            p.skip(from)
        } else {
            Seq::empty()
        }
    } else if word_at(p, t, from) {
        expand(rep, t) + replace_words(p, t, rep, from + t.len())
    } else {
        seq![p[from]] + replace_words(p, t, rep, from + 1)
    }
}

fn replace_words_exec(p: &[char], t: &[char], rep: &[char]) -> (r: Vec<char>)
    requires
        t.len() > 0,
    ensures
        r@ == replace_words(p@, t@, rep@, 0),
{
    let expansion = expand_exec(rep, t);
    let mut out: Vec<char> = Vec::new();
    let mut i: usize = 0;
    while i < p.len()
        invariant
            i <= p.len(),
            t@.len() > 0,
            expansion@ == expand(rep@, t@),
            replace_words(p@, t@, rep@, 0) == out@ + replace_words(p@, t@, rep@, i as int),
        decreases p.len() - i,
    {
        let ghost before = out@;
        let at = occurs_at_exec(p, t, i) && (i == 0 || !word_char(p[i - 1])) && (p.len() - i
            == t.len() || !word_char(p[i + t.len()]));
        if at {
            let mut k: usize = 0;
            while k < expansion.len()
                invariant
                    k <= expansion.len(),
                    out@ =~= before + expansion@.take(k as int),
                decreases expansion.len() - k,
            {
                out.push(expansion[k]);
                k = k + 1;
            }
            assert(expansion@.take(expansion.len() as int) =~= expansion@);
            assert(out@ + replace_words(p@, t@, rep@, i + t.len()) =~= before + (expansion@
                + replace_words(p@, t@, rep@, i + t.len())));
            i = i + t.len();
        } else {
            out.push(p[i]);
            assert(out@ + replace_words(p@, t@, rep@, i + 1) =~= before + (seq![p@[i as int]]
                + replace_words(p@, t@, rep@, i + 1)));
            i = i + 1;
        }
    }
    assert(replace_words(p@, t@, rep@, i as int) =~= Seq::<char>::empty());
    assert(out@ + Seq::<char>::empty() =~= out@);
    out
}

// ---------------------------------------------------------------------------
// Unpacking
// ---------------------------------------------------------------------------

/// The payload after the replacements for words `i - 1` down to `0`.
pub open spec fn unpack_steps(p: Seq<char>, k: Seq<Seq<char>>, a: nat, i: nat) -> Seq<char>
    decreases i,
{
    if i == 0 {
        p
    } else {
        let j = (i - 1) as nat;
        let next = if j < k.len() && k[j as int].len() > 0 {
            replace_words(p, token(j, a), k[j as int], 0)
        } else {
            p
        };
        unpack_steps(next, k, a, j)
    }
}

/// `str::parse::<usize>`.
pub open spec fn parse_usize(s: Seq<char>) -> Option<usize> {
    match parse_u64(s) {
        Some(n) => if n <= usize::MAX {
            Some(n as usize)
        } else {
            None
        },
        None => None,
    }
}

/// The payload with `\'` read as `'`, then `\\` as `\`.
pub open spec fn unescape_payload(p: Seq<char>) -> Seq<char> {
    replace_lit(replace_lit(p, "\\'"@, "'"@), "\\\\"@, "\\"@)
}

/// The tokens of the non-empty words among the first `c` can be written.
pub open spec fn words_writable(k: Seq<Seq<char>>, a: nat, c: nat) -> bool {
    forall|i: nat| i < c && i < k.len() && #[trigger] k[i as int].len() > 0 ==> token_ok(i, a)
}

/// Every token that the unpacking writes can be written (the packer's
/// base is at least 2 and its digits fit the alphabet); where one cannot,
/// the unpacking has no result.
pub open spec fn packer_safe(html: Seq<char>) -> bool {
    match first_packer(html, 0) {
        Some((_, a_text, c_text, k_text)) => match (parse_usize(a_text), parse_usize(c_text)) {
            (Some(a), Some(c)) => words_writable(split_by(k_text, is_char('|')), a as nat, c as nat),
            _ => true,
        },
        None => true,
    }
}

/// The script that the first packed script in a page unpacks to.
pub open spec fn spec_unpack(html: Seq<char>) -> Result<Seq<char>, PackerError> {
    match first_packer(html, 0) {
        None => Err(PackerError::NotFound),
        Some((p_text, a_text, c_text, k_text)) => match parse_usize(a_text) {
            None => Err(PackerError::Base),
            Some(a) => match parse_usize(c_text) {
                None => Err(PackerError::Count),
                Some(c) => Ok(
                    unpack_steps(
                        unescape_payload(p_text),
                        split_by(k_text, is_char('|')),
                        a as nat,
                        c as nat,
                    ),
                ),
            },
        },
    }
}

fn units_end_exec(u: &[char], i: usize) -> (r: usize)
    requires
        i <= u.len(),
    ensures
        r == units_end(u@, i as int),
        i <= r <= u.len(),
{
    let mut j = i;
    loop
        invariant
            i <= j <= u.len(),
            units_end(u@, i as int) == units_end(u@, j as int),
        decreases u.len() - j,
    {
        if j >= u.len() {
            return j;
        }
        if u[j] == '\\' {
            if j + 1 < u.len() && u[j + 1] != '\n' {
                j = j + 2;
            } else {
                return j;
            }
        } else if u[j] != '\'' {
            j = j + 1;
        } else {
            return j;
        }
    }
}

fn packer_at_exec(u: &[char], p: usize, head: &[char]) -> (r: Option<
    (Vec<char>, Vec<char>, Vec<char>, Vec<char>),
>)
    requires
        p <= u.len(),
        head@ == packer_head(),
    ensures
        match r {
            Some((a, b, c, d)) => packer_at(u@, p as int) == Some((a@, b@, c@, d@)),
            None => packer_at(u@, p as int) is None,
        },
{
    if !lit_at_exec(u, p, head) {
        return None;
    }
    let g1s = p + head.len();
    let g1e = units_end_exec(u, g1s);
    let q1 = chars_of("',");
    let q2 = chars_of(",'");
    let tail = chars_of("'.split('|')))");
    proof {
        reveal_strlit("',");
        reveal_strlit(",'");
    }
    if !lit_at_exec(u, g1e, q1.as_slice()) {
        return None;
    }
    let d1s = g1e + 2;
    let d1e = run_end_exec(u, d1s, Class::Digit);
    if !(d1e > d1s && d1e < u.len() && u[d1e] == ',') {
        return None;
    }
    let d2s = d1e + 1;
    let d2e = run_end_exec(u, d2s, Class::Digit);
    if !(d2e > d2s && lit_at_exec(u, d2e, q2.as_slice())) {
        return None;
    }
    let g4s = d2e + 2;
    let g4e = units_end_exec(u, g4s);
    if !lit_at_exec(u, g4e, tail.as_slice()) {
        return None;
    }
    Some(
        (
            slice_vec(u, g1s, g1e),
            slice_vec(u, d1s, d1e),
            slice_vec(u, d2s, d2e),
            slice_vec(u, g4s, g4e),
        ),
    )
}

fn first_packer_exec(u: &[char]) -> (r: Option<(Vec<char>, Vec<char>, Vec<char>, Vec<char>)>)
    ensures
        match r {
            Some((a, b, c, d)) => first_packer(u@, 0) == Some((a@, b@, c@, d@)),
            None => first_packer(u@, 0) is None,
        },
{
    let head = chars_of(
        "eval(function(p,a,c,k,e,d){while(c--)if(k[c])p=p.replace(new RegExp('\\\\b'+c.toString(a)+'\\\\b','g'),k[c]);return p}('",
    );
    let mut p: usize = 0;
    while p < u.len()
        invariant
            p <= u.len(),
            head@ == packer_head(),
            first_packer(u@, 0) == first_packer(u@, p as int),
        decreases u.len() - p,
    {
        match packer_at_exec(u, p, head.as_slice()) {
            Some(m) => {
                return Some(m);
            },
            None => {},
        }
        p = p + 1;
    }
    None
}

fn parse_usize_exec(s: &[char]) -> (r: Option<usize>)
    ensures
        r == parse_usize(s@),
{
    match parse_u64_exec(s) {
        Some(n) => {
            if n <= usize::MAX as u64 {
                Some(n as usize)
            } else {
                None
            }
        },
        None => None,
    }
}

proof fn lemma_unpack_steps_past_words(p: Seq<char>, k: Seq<Seq<char>>, a: nat, i: nat)
    requires
        i >= k.len(),
    ensures
        unpack_steps(p, k, a, i) == unpack_steps(p, k, a, k.len()),
    decreases i,
{
    if i > k.len() {
        lemma_unpack_steps_past_words(p, k, a, (i - 1) as nat);
    }
}

/// Whether every token the unpacking of this page writes can be written
/// (see [`packer_safe`]).
pub fn is_packer_safe(html: &str) -> (b: bool)
    ensures
        b == packer_safe(html@),
{
    let u = chars_of(html);
    let (_p_text, a_text, c_text, k_text) = match first_packer_exec(u.as_slice()) {
        Some(m) => m,
        None => return true,
    };
    let (a, c) = match (parse_usize_exec(a_text.as_slice()), parse_usize_exec(c_text.as_slice())) {
        (Some(a), Some(c)) => (a, c),
        _ => return true,
    };
    let k = split_exec(k_text.as_slice(), Sep::Char('|'));
    let ghost kv = views(k@);
    assert(kv == split_by(k_text@, is_char('|')));
    let n = if c < k.len() {
        c
    } else {
        k.len()
    };
    let mut i: usize = 1;
    assert(packer_safe(html@) == words_writable(kv, a as nat, c as nat));
    while i < n
        invariant
            1 <= i,
            n <= c,
            n <= k.len(),
            kv == views(k@),
            packer_safe(html@) == words_writable(kv, a as nat, c as nat),
            forall|j: nat| j < i && j < c && j < kv.len() && #[trigger] kv[j as int].len() > 0
                ==> token_ok(j, a as nat),
        decreases n - i,
    {
        assert(kv[i as int] == k@[i as int]@);
        if k[i].len() > 0 {
            if a < 2 {
                assert(!token_ok(i as nat, a as nat));
                assert(kv[i as int].len() > 0);
                return false;
            }
            let mut m = i;
            while m > 0
                invariant
                    a >= 2,
                    1 <= i < n <= c,
                    n <= k.len(),
                    kv == views(k@),
                    kv[i as int].len() > 0,
                    packer_safe(html@) == words_writable(kv, a as nat, c as nat),
                    digits_fit(i as nat, a as nat) == digits_fit(m as nat, a as nat),
                decreases m,
            {
                if m % a >= 36 {
                    assert(!token_ok(i as nat, a as nat));
                    return false;
                }
                assert(m / a < m) by (nonlinear_arith)
                    requires
                        m > 0,
                        a >= 2,
                ;
                m = m / a;
            }
        }
        i = i + 1;
    }
    assert forall|j: nat| j < c && j < kv.len() && #[trigger] kv[j as int].len() > 0 implies token_ok(
        j,
        a as nat,
    ) by {
        if j >= i {
            assert(j >= n);
        }
    }
    true
}

/// Unpacks the first packed script in a page: the payload with `\'` and
/// `\\` read, then, for every word from the last to the first, each
/// whole-word occurrence of its base-`a` token replaced by the word.
pub fn unpack_packer(html: &str) -> (r: Result<String, PackerError>)
    requires
        packer_safe(html@),
    ensures
        match r {
            Ok(s) => spec_unpack(html@) == Ok::<Seq<char>, PackerError>(s@),
            Err(e) => spec_unpack(html@) == Err::<Seq<char>, PackerError>(e),
        },
{
    let u = chars_of(html);
    let (p_text, a_text, c_text, k_text) = match first_packer_exec(u.as_slice()) {
        Some(m) => m,
        None => return Err(PackerError::NotFound),
    };
    let esc_q = chars_of("\\'");
    let q = chars_of("'");
    let esc_b = chars_of("\\\\");
    let b = chars_of("\\");
    proof {
        reveal_strlit("\\'");
        reveal_strlit("\\\\");
    }
    let p1 = replace_lit_exec(p_text.as_slice(), esc_q.as_slice(), q.as_slice());
    let mut p = replace_lit_exec(p1.as_slice(), esc_b.as_slice(), b.as_slice());
    let a = match parse_usize_exec(a_text.as_slice()) {
        Some(a) => a,
        None => return Err(PackerError::Base),
    };
    let c = match parse_usize_exec(c_text.as_slice()) {
        Some(c) => c,
        None => return Err(PackerError::Count),
    };
    let k = split_exec(k_text.as_slice(), Sep::Char('|'));
    let ghost kv = views(k@);
    assert(kv == split_by(k_text@, is_char('|')));
    let mut i: usize = if c < k.len() {
        c
    } else {
        k.len()
    };
    proof {
        if c >= k.len() {
            lemma_unpack_steps_past_words(p@, kv, a as nat, c as nat);
        }
    }
    let ghost target = unpack_steps(p@, kv, a as nat, c as nat);
    assert(target == unpack_steps(p@, kv, a as nat, i as nat));
    while i > 0
        invariant
            i <= c,
            i <= k.len(),
            kv == views(k@),
            kv == split_by(k_text@, is_char('|')),
            words_writable(kv, a as nat, c as nat),
            target == unpack_steps(p@, kv, a as nat, i as nat),
        decreases i,
    {
        i = i - 1;
        assert(kv[i as int] == k@[i as int]@);
        if k[i].len() > 0 {
            let t = token_exec(i, a);
            assert(t@.len() > 0) by {
                if i > 0 {
                    assert(token(i as nat, a as nat) == base_digits(i as nat, a as nat));
                    assert(base_digits(i as nat, a as nat) == base_digits(
                        (i / a) as nat,
                        a as nat,
                    ).push(base_digit((i % a) as nat)));
                }
            }
            p = replace_words_exec(p.as_slice(), t.as_slice(), k[i].as_slice());
        }
    }
    Ok(string_of(p.as_slice()))
}

/// Why the player page gave no HLS links.
#[derive(Debug, Clone, PartialEq, Eq)]
pub enum LinksError {
    Packer(PackerError),
    Hls(HlsError),
}

/// The HLS links of a player page: its packed script unpacked, then read.
pub fn links_from_embed_html(html: &str) -> (r: Result<HlsLinks, LinksError>)
    requires
        packer_safe(html@),
    ensures
        match spec_unpack(html@) {
            Err(e) => r == Err::<HlsLinks, LinksError>(LinksError::Packer(e)),
            Ok(js) => match spec_extract(js) {
                Ok(l) => r matches Ok(m) && m@ == l,
                Err(e) => r == Err::<HlsLinks, LinksError>(LinksError::Hls(e)),
            },
        },
{
    let js = match unpack_packer(html) {
        Ok(js) => js,
        Err(e) => return Err(LinksError::Packer(e)),
    };
    match extract_hls_links(js.as_str()) {
        Ok(l) => Ok(l),
        Err(e) => Err(LinksError::Hls(e)),
    }
}

/// The HLS links of a player page, or `None` where a token of its packed
/// script cannot be written (see [`packer_safe`]).
pub fn links_from_embed_html_checked(html: &str) -> (r: Option<Result<HlsLinks, LinksError>>)
    ensures
        !packer_safe(html@) ==> r is None,
        packer_safe(html@) ==> (r matches Some(res) && match spec_unpack(html@) {
            Err(e) => res == Err::<HlsLinks, LinksError>(LinksError::Packer(e)),
            Ok(js) => match spec_extract(js) {
                Ok(l) => res matches Ok(m) && m@ == l,
                Err(e) => res == Err::<HlsLinks, LinksError>(LinksError::Hls(e)),
            },
        }),
{
    if !is_packer_safe(html) {
        return None;
    }
    Some(links_from_embed_html(html))
}

} // verus!
