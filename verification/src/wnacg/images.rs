//! The image list of a work page's HTML: lazy-loaded slide images, in
//! natural page order without repeats.

use crate::order::{
    lemma_lex_antisymmetric, lemma_lex_reflexive, lemma_lex_total, lemma_lex_transitive, lex_le,
    lex_le_exec,
};
use crate::pattern::{ci_lit_at, ci_lit_at_exec, is_word_char, run_end, run_end_exec, word_char, Class};
use crate::text::{
    ascii_digit, chars_of, contains, contains_exec, last_index_of, last_index_of_exec,
    lemma_trail_len, lemma_trail_len_bound, lower, lower_exec, parse_u64, parse_u64_exec,
    slice_vec, starts_with, starts_with_exec, string_of, trail_len, trim, trim_end_by, trim_exec,
};
use crate::weburl::{join_url, parse_url, url_join, url_parse};
use crate::wnacg::url::{spec_image_url, validate_image_parsed};
use vstd::prelude::*;

verus! {

// ---------------------------------------------------------------------------
// Natural order of image URLs
// ---------------------------------------------------------------------------

/// The path of a URL, or the text itself when it does not parse.
pub open spec fn key_path(url: Seq<char>) -> Seq<char> {
    match url_parse(url) {
        Some(v) => v.path,
        None => url,
    }
}

/// The file stem of a path: the last segment without its extension; the
/// whole path when that segment has no `.`.
pub open spec fn key_stem(path: Seq<char>) -> Seq<char> {
    let last = match last_index_of(path, '/') {
        Some(i) => path.skip(i as int + 1),
        None => path,
    };
    match last_index_of(last, '.') {
        Some(j) => last.take(j as int),
        None => path,
    }
}

/// The trailing ASCII digits of a stem, as a number (`u64::MAX` when there
/// are none or they overflow).
pub open spec fn key_number(stem: Seq<char>) -> u64 {
    let digits = stem.skip(stem.len() - trail_len(stem, ascii_digit()));
    match parse_u64(digits) {
        Some(n) => n,
        None => u64::MAX,
    }
}

/// The stem without its trailing digits, in lower case.
pub open spec fn key_prefix(stem: Seq<char>) -> Seq<char> {
    lower(trim_end_by(stem, ascii_digit()))
}

pub open spec fn lex_lt(a: Seq<char>, b: Seq<char>) -> bool {
    lex_le(a, b) && a != b
}

/// Natural order: by stem prefix, then page number, then the whole URL.
pub open spec fn natural_lt(a: Seq<char>, b: Seq<char>) -> bool {
    let sa = key_stem(key_path(a));
    let sb = key_stem(key_path(b));
    let pa = key_prefix(sa);
    let pb = key_prefix(sb);
    lex_lt(pa, pb) || (pa == pb && (key_number(sa) < key_number(sb) || (key_number(sa)
        == key_number(sb) && lex_lt(a, b))))
}

pub proof fn lemma_lex_lt_trans(a: Seq<char>, b: Seq<char>, c: Seq<char>)
    requires
        lex_lt(a, b),
        lex_lt(b, c),
    ensures
        lex_lt(a, c),
{
    lemma_lex_transitive(a, b, c);
    if a == c {
        lemma_lex_antisymmetric(a, b);
    }
}

/// The natural order is transitive.
pub proof fn lemma_natural_transitive(a: Seq<char>, b: Seq<char>, c: Seq<char>)
    requires
        natural_lt(a, b),
        natural_lt(b, c),
    ensures
        natural_lt(a, c),
{
    let pa = key_prefix(key_stem(key_path(a)));
    let pb = key_prefix(key_stem(key_path(b)));
    let pc = key_prefix(key_stem(key_path(c)));
    if lex_lt(pa, pb) && lex_lt(pb, pc) {
        lemma_lex_lt_trans(pa, pb, pc);
    }
    if lex_lt(a, b) && lex_lt(b, c) {
        lemma_lex_lt_trans(a, b, c);
    }
}

/// The natural order is irreflexive and total on distinct URLs.
pub proof fn lemma_natural_trichotomy(a: Seq<char>, b: Seq<char>)
    ensures
        !natural_lt(a, a),
        a != b ==> natural_lt(a, b) || natural_lt(b, a),
        !(natural_lt(a, b) && natural_lt(b, a)),
{
    let pa = key_prefix(key_stem(key_path(a)));
    let pb = key_prefix(key_stem(key_path(b)));
    lemma_lex_total(pa, pb);
    lemma_lex_total(a, b);
    if lex_le(pa, pb) && lex_le(pb, pa) {
        lemma_lex_antisymmetric(pa, pb);
    }
    if lex_le(a, b) && lex_le(b, a) {
        lemma_lex_antisymmetric(a, b);
    }
}

/// Strictly increasing in natural order (so without repeats).
pub open spec fn naturally_sorted(s: Seq<Seq<char>>) -> bool {
    forall|i: int, j: int| 0 <= i < j < s.len() ==> natural_lt(#[trigger] s[i], #[trigger] s[j])
}

/// A list strictly increasing in natural order holds no URL twice.
pub proof fn lemma_naturally_sorted_no_repeats(v: Seq<Seq<char>>)
    requires
        naturally_sorted(v),
    ensures
        v.no_duplicates(),
{
    assert forall|i: int, j: int| 0 <= i < v.len() && 0 <= j < v.len() && i != j implies v[i]
        != v[j] by {
        lemma_natural_trichotomy(v[i], v[i]);
        if i < j {
            assert(natural_lt(v[i], v[j]));
        } else {
            assert(natural_lt(v[j], v[i]));
        }
    }
}

/// A naturally sorted list holding exactly the URLs of another list has one
/// entry for each distinct URL of it.
pub proof fn lemma_sorted_counts_distinct(v: Seq<Seq<char>>, found: Seq<Seq<char>>)
    requires
        naturally_sorted(v),
        forall|x: Seq<char>| v.contains(x) <==> found.contains(x),
    ensures
        v.len() == found.to_set().len(),
{
    lemma_naturally_sorted_no_repeats(v);
    v.unique_seq_to_set();
    assert(v.to_set() =~= found.to_set());
}

/// A URL with its natural-order key.
struct Keyed {
    prefix: Vec<char>,
    number: u64,
    url: Vec<char>,
}

spec fn keyed_ok(k: Keyed) -> bool {
    let s = key_stem(key_path(k.url@));
    k.prefix@ == key_prefix(s) && k.number == key_number(s)
}

fn key_stem_exec(path: &[char]) -> (r: Vec<char>)
    ensures
        r@ == key_stem(path@),
{
    let last = match last_index_of_exec(path, '/') {
        Some(i) => slice_vec(path, i + 1, path.len()),
        None => slice_vec(path, 0, path.len()),
    };
    assert(last@ == (match last_index_of(path@, '/') {
        Some(i) => path@.skip(i as int + 1),
        None => path@,
    }));
    match last_index_of_exec(last.as_slice(), '.') {
        Some(j) => {
            let r = slice_vec(last.as_slice(), 0, j);
            assert(r@ =~= last@.take(j as int));
            r
        },
        None => slice_vec(path, 0, path.len()),
    }
}

fn keyed(url: Vec<char>) -> (k: Keyed)
    ensures
        keyed_ok(k),
        k.url@ == url@,
{
    let text = string_of(url.as_slice());
    let path = match parse_url(text.as_str()) {
        Some(v) => chars_of(v.path.as_str()),
        None => slice_vec(url.as_slice(), 0, url.len()),
    };
    assert(path@ == key_path(url@));
    let stem = key_stem_exec(path.as_slice());
    let mut hi: usize = stem.len();
    while hi > 0 && '0' <= stem[hi - 1] && stem[hi - 1] <= '9'
        invariant
            hi <= stem.len(),
            forall|j: int| hi <= j < stem.len() ==> ascii_digit()(#[trigger] stem@[j]),
        decreases hi,
    {
        hi = hi - 1;
    }
    proof {
        lemma_trail_len(stem@, ascii_digit(), (stem.len() - hi) as int);
    }
    let digits = slice_vec(stem.as_slice(), hi, stem.len());
    let head = slice_vec(stem.as_slice(), 0, hi);
    assert(digits@ =~= stem@.skip(stem@.len() - trail_len(stem@, ascii_digit())));
    assert(head@ =~= trim_end_by(stem@, ascii_digit()));
    let number = match parse_u64_exec(digits.as_slice()) {
        Some(n) => n,
        None => u64::MAX,
    };
    assert(number == key_number(stem@));
    let prefix = lower_exec(head.as_slice());
    assert(prefix@ == key_prefix(stem@));
    Keyed { prefix, number, url }
}

fn same_chars(a: &[char], b: &[char]) -> (r: bool)
    ensures
        r == (a@ == b@),
{
    if a.len() != b.len() {
        return false;
    }
    let r = starts_with_exec(a, b);
    assert(r ==> a@ =~= b@) by {
        if r {
            assert(a@.take(b@.len() as int) =~= a@);
        }
    }
    r
}

fn lex_lt_exec(a: &[char], b: &[char]) -> (r: bool)
    ensures
        r == lex_lt(a@, b@),
{
    lex_le_exec(a, b) && !same_chars(a, b)
}

fn keyed_lt(a: &Keyed, b: &Keyed) -> (r: bool)
    requires
        keyed_ok(*a),
        keyed_ok(*b),
    ensures
        r == natural_lt(a.url@, b.url@),
{
    if lex_lt_exec(a.prefix.as_slice(), b.prefix.as_slice()) {
        return true;
    }
    if !same_chars(a.prefix.as_slice(), b.prefix.as_slice()) {
        return false;
    }
    if a.number < b.number {
        return true;
    }
    if a.number != b.number {
        return false;
    }
    lex_lt_exec(a.url.as_slice(), b.url.as_slice())
}

spec fn keyed_urls(v: Seq<Keyed>) -> Seq<Seq<char>> {
    v.map_values(|k: Keyed| k.url@)
}

/// Inserts a URL into a naturally sorted list unless it is already there.
fn insert_sorted(list: &mut Vec<Keyed>, k: Keyed)
    requires
        keyed_ok(k),
        forall|i: int| 0 <= i < old(list).len() ==> keyed_ok(#[trigger] old(list)@[i]),
        naturally_sorted(keyed_urls(old(list)@)),
    ensures
        forall|i: int| 0 <= i < final(list).len() ==> keyed_ok(#[trigger] final(list)@[i]),
        naturally_sorted(keyed_urls(final(list)@)),
        forall|x: Seq<char>|
            keyed_urls(final(list)@).contains(x) <==> (keyed_urls(old(list)@).contains(x) || x
                == k.url@),
{
    let ghost s0 = keyed_urls(list@);
    let mut i: usize = 0;
    while i < list.len() && keyed_lt(&list[i], &k)
        invariant
            i <= list.len(),
            list@ == old(list)@,
            s0 == keyed_urls(list@),
            keyed_ok(k),
            forall|j: int| 0 <= j < list.len() ==> keyed_ok(#[trigger] list@[j]),
            forall|j: int| 0 <= j < i ==> natural_lt(#[trigger] s0[j], k.url@),
        decreases list.len() - i,
    {
        assert(s0[i as int] == list@[i as int].url@);
        i = i + 1;
    }
    if i < list.len() && same_chars(list[i].url.as_slice(), k.url.as_slice()) {
        assert(s0[i as int] == k.url@);
        return;
    }
    let ghost x = k.url@;
    proof {
        if i < list.len() {
            assert(s0[i as int] == list@[i as int].url@);
            lemma_natural_trichotomy(s0[i as int], x);
            assert(natural_lt(x, s0[i as int]));
            assert forall|j: int| i <= j < s0.len() implies natural_lt(x, #[trigger] s0[j]) by {
                if j > i {
                    lemma_natural_transitive(x, s0[i as int], s0[j]);
                }
            }
        }
    }
    list.insert(i, k);
    proof {
        let s1 = keyed_urls(list@);
        assert(s1 =~= s0.insert(i as int, x));
        assert forall|a: int, b: int| 0 <= a < b < s1.len() implies natural_lt(
            #[trigger] s1[a],
            #[trigger] s1[b],
        ) by {
            if b < i {
            } else if a < i && b == i {
            } else if a < i && b > i {
                assert(s1[b] == s0[b - 1]);
                assert(natural_lt(s0[a], s0[b - 1]));
            } else if a == i {
                assert(s1[b] == s0[b - 1]);
            } else {
                assert(s1[a] == s0[a - 1]);
                assert(s1[b] == s0[b - 1]);
            }
        }
        assert forall|y: Seq<char>| s1.contains(y) <==> (s0.contains(y) || y == x) by {
            if s1.contains(y) {
                let m = choose|m: int| 0 <= m < s1.len() && s1[m] == y;
                if m < i {
                    assert(s0[m] == y);
                } else if m > i {
                    assert(s0[m - 1] == y);
                }
            }
            if s0.contains(y) {
                let m = choose|m: int| 0 <= m < s0.len() && s0[m] == y;
                if m < i {
                    assert(s1[m] == y);
                } else {
                    assert(s1[m + 1] == y);
                }
            }
            if y == x {
                assert(s1[i as int] == y);
            }
        }
    }
}

// ---------------------------------------------------------------------------
// Image tags
// ---------------------------------------------------------------------------

/// Where a match of `(?is)<img\b[^>]*>` starting at `p` ends; `-1` if none.
pub open spec fn img_tag_end(u: Seq<char>, p: int) -> int {
    let g = run_end(u, p + 4, Class::NotGt);
    if ci_lit_at(u, p, "<img"@) && (p + 4 == u.len() || !is_word_char(u[p + 4])) && g < u.len() {
        g + 1
    } else {
        -1
    }
}

/// The image tags from `from` on, as `find_iter` reports them.
pub open spec fn img_tags(u: Seq<char>, from: int) -> Seq<Seq<char>>
    decreases u.len() - from,
{
    if from < 0 || from >= u.len() {
        Seq::empty()
    } else {
        let e = img_tag_end(u, from);
        if from < e <= u.len() {
            seq![u.subrange(from, e)] + img_tags(u, e)
        } else {
            img_tags(u, from + 1)
        }
    }
}

/// The length of the attribute keyword at `q`: `data-original`,
/// `data-src`, `data-echo` or `src`, any case; `-1` when none is there.
pub open spec fn attr_keyword_len(t: Seq<char>, q: int) -> int {
    if ci_lit_at(t, q, "data-original"@) {
        13
    } else if ci_lit_at(t, q, "data-src"@) {
        8
    } else if ci_lit_at(t, q, "data-echo"@) {
        9
    } else if ci_lit_at(t, q, "src"@) {
        3
    } else {
        -1
    }
}

/// A match of `(?:data-original|data-src|data-echo|src)\s*=\s*["'](?P<url>[^"']+)["']`
/// at `q`, as the start and end of the URL.
pub open spec fn attr_at(t: Seq<char>, q: int) -> Option<(int, int)> {
    let k = attr_keyword_len(t, q);
    let a = run_end(t, q + k, Class::Space);
    let b = run_end(t, a + 1, Class::Space);
    let e = run_end(t, b + 1, Class::NotQuote);
    if k > 0 && a < t.len() && t[a] == '=' && b < t.len() && (t[b] == '"' || t[b] == '\'') && e
        > b + 1 && e < t.len() {
        Some((b + 1, e))
    } else {
        None
    }
}

/// The attribute matches of a tag from `from` on: the whole match and the URL.
pub open spec fn attrs(t: Seq<char>, from: int) -> Seq<(Seq<char>, Seq<char>)>
    decreases t.len() - from,
{
    if from < 0 || from >= t.len() {
        Seq::empty()
    } else {
        match attr_at(t, from) {
            Some((s, e)) => if from < s <= e < t.len() {
                seq![(t.subrange(from, e + 1), t.subrange(s, e))] + attrs(t, e + 1)
            } else {
                Seq::empty()
            },
            None => attrs(t, from + 1),
        }
    }
}

/// The URL of the first attribute match whose text, in lower case, starts
/// with `wanted`.
pub open spec fn first_attr(a: Seq<(Seq<char>, Seq<char>)>, wanted: Seq<char>) -> Option<Seq<char>>
    decreases a.len(),
{
    if a.len() == 0 {
        None
    } else if starts_with(lower(a[0].0), wanted) {
        Some(a[0].1)
    } else {
        first_attr(a.drop_first(), wanted)
    }
}

/// The image source a tag names: `data-original`, else `data-src`, else
/// `data-echo`, else `src`.
pub open spec fn tag_source(t: Seq<char>) -> Option<Seq<char>> {
    let a = attrs(t, 0);
    match first_attr(a, "data-original"@) {
        Some(u) => Some(u),
        None => match first_attr(a, "data-src"@) {
            Some(u) => Some(u),
            None => match first_attr(a, "data-echo"@) {
                Some(u) => Some(u),
                None => first_attr(a, "src"@),
            },
        },
    }
}

/// The text after the last `.` (all of it when there is none).
pub open spec fn extension(path: Seq<char>) -> Seq<char> {
    match last_index_of(path, '.') {
        Some(i) => path.skip(i as int + 1),
        None => path,
    }
}

pub open spec fn is_image_extension(e: Seq<char>) -> bool {
    e == "jpg"@ || e == "jpeg"@ || e == "png"@ || e == "webp"@ || e == "gif"@
}

/// A tag with a lazy-loading attribute.
pub open spec fn is_lazy(tag_lower: Seq<char>) -> bool {
    contains(tag_lower, "data-original="@) || contains(tag_lower, "data-src="@) || contains(
        tag_lower,
        "data-echo="@,
    )
}

/// What one image tag contributes: a page image URL, nothing, or (as
/// `Err`) a source that does not resolve against the page URL.
pub open spec fn tag_image(page: Seq<char>, t: Seq<char>) -> Result<Option<Seq<char>>, Seq<char>> {
    match tag_source(t) {
        None => Ok(None),
        Some(c0) => {
            let c = trim(c0);
            if c.len() == 0 || starts_with(c, "data:"@) || starts_with(c, "javascript:"@) {
                Ok(None)
            } else {
                match url_join(page, c) {
                    None => Err(c),
                    Some(res) => if spec_image_url(res) is Err {
                        Ok(None)
                    } else {
                        match url_parse(res) {
                            None => Ok(None),
                            Some(v) => {
                                let path = lower(v.path);
                                if !is_image_extension(extension(path)) {
                                    Ok(None)
                                } else if !is_lazy(lower(t)) && !contains(path, "/photos/"@) {
                                    Ok(None)
                                } else {
                                    Ok(Some(v.serialization))
                                }
                            },
                        }
                    },
                }
            }
        },
    }
}

/// The page images of `tags[..n]`, in document order, or the first source
/// that does not resolve.
pub open spec fn tag_images(page: Seq<char>, tags: Seq<Seq<char>>, n: nat) -> Result<
    Seq<Seq<char>>,
    Seq<char>,
>
    decreases n,
{
    if n == 0 || n > tags.len() {
        Ok(Seq::empty())
    } else {
        match tag_images(page, tags, (n - 1) as nat) {
            Err(c) => Err(c),
            Ok(prev) => match tag_image(page, tags[n - 1]) {
                Err(c) => Err(c),
                Ok(None) => Ok(prev),
                Ok(Some(u)) => Ok(prev.push(u)),
            },
        }
    }
}

/// A URL kept as a page image: the serialization of a resolved source that
/// passes the CDN check, with an image file extension on its path.
pub open spec fn image_checked(u: Seq<char>) -> bool {
    exists|res: Seq<char>|
        #[trigger] spec_image_url(res) is Ok && (url_parse(res) matches Some(v) && v.serialization
            == u && is_image_extension(extension(lower(v.path))))
}

proof fn lemma_tag_images_checked(page: Seq<char>, tags: Seq<Seq<char>>, n: nat)
    ensures
        tag_images(page, tags, n) matches Ok(found) ==> forall|i: int|
            0 <= i < found.len() ==> image_checked(#[trigger] found[i]),
    decreases n,
{
    if n > 0 && n <= tags.len() {
        lemma_tag_images_checked(page, tags, (n - 1) as nat);
        if let Ok(prev) = tag_images(page, tags, (n - 1) as nat) {
            if let Ok(Some(u)) = tag_image(page, tags[n - 1]) {
                let c = trim(tag_source(tags[n - 1])->Some_0);
                let res = url_join(page, c)->Some_0;
                assert(spec_image_url(res) is Ok);
                assert(image_checked(u));
                let found = prev.push(u);
                assert forall|i: int| 0 <= i < found.len() implies image_checked(
                    #[trigger] found[i],
                ) by {
                    if i < prev.len() {
                        assert(found[i] == prev[i]);
                    }
                }
            }
        }
    }
}

/// Every image the work page yields passed the CDN check and names an image
/// file.
pub proof fn lemma_found_images_checked(html: Seq<char>, page_url: Seq<char>)
    ensures
        spec_found_images(html, page_url) matches Some(Ok(found)) ==> forall|i: int|
            0 <= i < found.len() ==> image_checked(#[trigger] found[i]),
{
    let tags = img_tags(html, 0);
    lemma_tag_images_checked(page_url, tags, tags.len());
}

/// Why the image list could not be read.
#[derive(Debug, Clone, PartialEq, Eq)]
pub enum ImagesError {
    /// The work page URL does not parse.
    BadPageUrl,
    /// An image source does not resolve against the page URL; holds it.
    Unresolvable(String),
}

impl ImagesError {
    pub open spec fn spec_message(self) -> Seq<char> {
        match self {
            ImagesError::BadPageUrl => "parse work page URL"@,
            ImagesError::Unresolvable(c) => "resolve image URL "@ + c@,
        }
    }

    pub fn message(&self) -> (m: String)
        ensures
            m@ == self.spec_message(),
    {
        match self {
            ImagesError::BadPageUrl => String::from_str("parse work page URL"),
            ImagesError::Unresolvable(c) => crate::text::lit_then(
                "resolve image URL ",
                chars_of(c.as_str()).as_slice(),
            ),
        }
    }
}

fn img_tag_end_exec(u: &[char], p: usize) -> (r: Option<usize>)
    requires
        p <= u.len(),
    ensures
        match r {
            Some(e) => e == img_tag_end(u@, p as int) && p < e <= u.len(),
            None => img_tag_end(u@, p as int) == -1,
        },
{
    let open_tag = chars_of("<img");
    proof {
        reveal_strlit("<img");
    }
    if !(ci_lit_at_exec(u, p, open_tag.as_slice()) && (u.len() - p == 4 || !word_char(u[p + 4]))) {
        return None;
    }
    let g = run_end_exec(u, p + 4, Class::NotGt);
    if g < u.len() {
        Some(g + 1)
    } else {
        None
    }
}

fn attr_keyword_len_exec(t: &[char], q: usize) -> (r: usize)
    requires
        q <= t.len(),
    ensures
        attr_keyword_len(t@, q as int) > 0 ==> r == attr_keyword_len(t@, q as int) && q + r
            <= t.len(),
        attr_keyword_len(t@, q as int) <= 0 ==> r == 0,
{
    let a = chars_of("data-original");
    let b = chars_of("data-src");
    let c = chars_of("data-echo");
    let d = chars_of("src");
    proof {
        reveal_strlit("data-original");
        reveal_strlit("data-src");
        reveal_strlit("data-echo");
        reveal_strlit("src");
    }
    if ci_lit_at_exec(t, q, a.as_slice()) {
        13
    } else if ci_lit_at_exec(t, q, b.as_slice()) {
        8
    } else if ci_lit_at_exec(t, q, c.as_slice()) {
        9
    } else if ci_lit_at_exec(t, q, d.as_slice()) {
        3
    } else {
        0
    }
}

fn attr_at_exec(t: &[char], q: usize) -> (r: Option<(usize, usize)>)
    requires
        q <= t.len(),
    ensures
        match r {
            Some((s, e)) => attr_at(t@, q as int) == Some((s as int, e as int)) && q < s <= e
                < t.len(),
            None => attr_at(t@, q as int) is None,
        },
{
    let k = attr_keyword_len_exec(t, q);
    if k == 0 {
        return None;
    }
    let a = run_end_exec(t, q + k, Class::Space);
    if !(a < t.len() && t[a] == '=') {
        return None;
    }
    let b = run_end_exec(t, a + 1, Class::Space);
    if !(b < t.len() && (t[b] == '"' || t[b] == '\'')) {
        return None;
    }
    let e = run_end_exec(t, b + 1, Class::NotQuote);
    if e > b + 1 && e < t.len() {
        Some((b + 1, e))
    } else {
        None
    }
}

/// The source of the first attribute whose text (lower case) starts with
/// `wanted`.
fn first_attr_exec(t: &[char], wanted: &str) -> (r: Option<Vec<char>>)
    ensures
        match r {
            Some(u) => first_attr(attrs(t@, 0), wanted@) == Some(u@),
            None => first_attr(attrs(t@, 0), wanted@) is None,
        },
{
    let w = chars_of(wanted);
    let mut q: usize = 0;
    while q < t.len()
        invariant
            q <= t.len(),
            w@ == wanted@,
            first_attr(attrs(t@, 0), wanted@) == first_attr(attrs(t@, q as int), wanted@),
        decreases t.len() - q,
    {
        match attr_at_exec(t, q) {
            Some((s, e)) => {
                let m = slice_vec(t, q, e + 1);
                let lm = lower_exec(m.as_slice());
                let ghost rest = attrs(t@, q as int);
                assert(rest == seq![(t@.subrange(q as int, e + 1), t@.subrange(s as int, e as int))]
                    + attrs(t@, e + 1));
                assert(rest[0] == (m@, t@.subrange(s as int, e as int)));
                assert(rest.drop_first() =~= attrs(t@, e + 1));
                if starts_with_exec(lm.as_slice(), w.as_slice()) {
                    return Some(slice_vec(t, s, e));
                }
                q = e + 1;
            },
            None => {
                q = q + 1;
            },
        }
    }
    None
}

fn tag_source_exec(t: &[char]) -> (r: Option<Vec<char>>)
    ensures
        match r {
            Some(u) => tag_source(t@) == Some(u@),
            None => tag_source(t@) is None,
        },
{
    match first_attr_exec(t, "data-original") {
        Some(u) => return Some(u),
        None => {},
    }
    match first_attr_exec(t, "data-src") {
        Some(u) => return Some(u),
        None => {},
    }
    match first_attr_exec(t, "data-echo") {
        Some(u) => return Some(u),
        None => {},
    }
    first_attr_exec(t, "src")
}

fn same_lit(a: &[char], lit: &str) -> (b: bool)
    ensures
        b == (a@ == lit@),
{
    let l = chars_of(lit);
    same_chars(a, l.as_slice())
}

fn tag_image_exec(page: &str, t: &[char]) -> (r: Result<Option<Vec<char>>, Vec<char>>)
    ensures
        match r {
            Ok(Some(u)) => tag_image(page@, t@) == Ok::<Option<Seq<char>>, Seq<char>>(Some(u@)),
            Ok(None) => tag_image(page@, t@) == Ok::<Option<Seq<char>>, Seq<char>>(None),
            Err(c) => tag_image(page@, t@) == Err::<Option<Seq<char>>, Seq<char>>(c@),
        },
{
    let c0 = match tag_source_exec(t) {
        Some(c0) => c0,
        None => return Ok(None),
    };
    let c = trim_exec(c0.as_slice());
    let data = chars_of("data:");
    let js = chars_of("javascript:");
    if c.len() == 0 || starts_with_exec(c.as_slice(), data.as_slice()) || starts_with_exec(
        c.as_slice(),
        js.as_slice(),
    ) {
        return Ok(None);
    }
    let cs = string_of(c.as_slice());
    let res = match join_url(page, cs.as_str()) {
        Some(res) => res,
        None => return Err(c),
    };
    let v = match validate_image_parsed(res.as_str()) {
        Ok(v) => v,
        Err(_) => return Ok(None),
    };
    let path = lower_exec(chars_of(v.path.as_str()).as_slice());
    let ext = match last_index_of_exec(path.as_slice(), '.') {
        Some(i) => slice_vec(path.as_slice(), i + 1, path.len()),
        None => slice_vec(path.as_slice(), 0, path.len()),
    };
    assert(ext@ == extension(path@));
    if !(same_lit(ext.as_slice(), "jpg") || same_lit(ext.as_slice(), "jpeg") || same_lit(
        ext.as_slice(),
        "png",
    ) || same_lit(ext.as_slice(), "webp") || same_lit(ext.as_slice(), "gif")) {
        return Ok(None);
    }
    let tl = lower_exec(t);
    let lazy = contains_exec(tl.as_slice(), chars_of("data-original=").as_slice())
        || contains_exec(tl.as_slice(), chars_of("data-src=").as_slice()) || contains_exec(
        tl.as_slice(),
        chars_of("data-echo=").as_slice(),
    );
    if !lazy && !contains_exec(path.as_slice(), chars_of("/photos/").as_slice()) {
        return Ok(None);
    }
    Ok(Some(chars_of(v.serialization.as_str())))
}

proof fn lemma_tag_images_err_sticks(page: Seq<char>, tags: Seq<Seq<char>>, k: nat, n: nat)
    requires
        k <= n <= tags.len(),
        tag_images(page, tags, k) is Err,
    ensures
        tag_images(page, tags, n) == tag_images(page, tags, k),
    decreases n,
{
    if n > k {
        lemma_tag_images_err_sticks(page, tags, k, (n - 1) as nat);
    }
}

/// The page images of a work page's HTML, in document order.
pub open spec fn spec_found_images(html: Seq<char>, page_url: Seq<char>) -> Option<
    Result<Seq<Seq<char>>, Seq<char>>,
> {
    if url_parse(page_url) is None {
        None
    } else {
        let tags = img_tags(html, 0);
        Some(tag_images(page_url, tags, tags.len()))
    }
}

/// The slide images of a work page: the lazy-loaded (or `/photos/`) image
/// tags whose sources resolve to allowed CDN images, in natural page order
/// and without repeats.
pub fn parse_image_urls(html: &str, page_url: &str) -> (r: Result<Vec<String>, ImagesError>)
    ensures
        match r {
            Ok(v) => match spec_found_images(html@, page_url@) {
                Some(Ok(found)) => naturally_sorted(v@.map_values(|s: String| s@)) && forall|
                    x: Seq<char>,
                | v@.map_values(|s: String| s@).contains(x) <==> found.contains(x),
                _ => false,
            },
            Err(ImagesError::BadPageUrl) => spec_found_images(html@, page_url@) is None,
            Err(ImagesError::Unresolvable(c)) => spec_found_images(html@, page_url@) == Some(
                Err::<Seq<Seq<char>>, Seq<char>>(c@),
            ),
        },
{
    if parse_url(page_url).is_none() {
        return Err(ImagesError::BadPageUrl);
    }
    let u = chars_of(html);
    let ghost tags = img_tags(u@, 0);
    let ghost mut seen: Seq<Seq<char>> = Seq::empty();
    let mut list: Vec<Keyed> = Vec::new();
    let mut p: usize = 0;
    assert(keyed_urls(list@) =~= Seq::<Seq<char>>::empty());
    while p < u.len()
        invariant
            p <= u.len(),
            u@ == html@,
            tags == img_tags(u@, 0),
            url_parse(page_url@) is Some,
            tags == seen + img_tags(u@, p as int),
            tag_images(page_url@, seen, seen.len()) matches Ok(found) && forall|x: Seq<char>|
                keyed_urls(list@).contains(x) <==> found.contains(x),
            forall|i: int| 0 <= i < list.len() ==> keyed_ok(#[trigger] list@[i]),
            naturally_sorted(keyed_urls(list@)),
        decreases u.len() - p,
    {
        match img_tag_end_exec(u.as_slice(), p) {
            Some(e) => {
                let t = slice_vec(u.as_slice(), p, e);
                let ghost old_seen = seen;
                proof {
                    seen = seen.push(t@);
                    assert(img_tags(u@, p as int) == seq![t@] + img_tags(u@, e as int));
                    assert(tags =~= seen + img_tags(u@, e as int));
                    assert(seen.drop_last() =~= old_seen);
                    assert forall|k: nat| k <= old_seen.len() implies tag_images(
                        page_url@,
                        seen,
                        k,
                    ) == tag_images(page_url@, old_seen, k) by {
                        lemma_tag_images_prefix(page_url@, old_seen, seen, k);
                    }
                }
                let ghost found_before = match tag_images(page_url@, old_seen, old_seen.len()) {
                    Ok(f) => f,
                    Err(_) => Seq::empty(),
                };
                proof {
                    assert(seen[seen.len() - 1] == t@);
                    assert(tag_images(page_url@, seen, (seen.len() - 1) as nat) == tag_images(
                        page_url@,
                        old_seen,
                        old_seen.len(),
                    ));
                    assert forall|i: int| 0 <= i < seen.len() implies seen[i] == tags[i] by {
                        assert(tags[i] == (seen + img_tags(u@, e as int))[i]);
                    }
                }
                match tag_image_exec(page_url, t.as_slice()) {
                    Err(c) => {
                        proof {
                            assert(tag_images(page_url@, seen, seen.len()) == Err::<
                                Seq<Seq<char>>,
                                Seq<char>,
                            >(c@));
                            lemma_tag_images_prefix_rest(page_url@, seen, tags);
                            lemma_tag_images_err_sticks(
                                page_url@,
                                tags,
                                seen.len(),
                                tags.len(),
                            );
                            assert(tag_images(page_url@, tags, tags.len()) == Err::<
                                Seq<Seq<char>>,
                                Seq<char>,
                            >(c@));
                            assert(u@ == html@);
                            assert(spec_found_images(html@, page_url@) == Some(
                                Err::<Seq<Seq<char>>, Seq<char>>(c@),
                            ));
                        }
                        return Err(ImagesError::Unresolvable(string_of(c.as_slice())));
                    },
                    Ok(None) => {
                        assert(tag_images(page_url@, seen, seen.len()) == Ok::<
                            Seq<Seq<char>>,
                            Seq<char>,
                        >(found_before));
                    },
                    Ok(Some(img)) => {
                        let ghost iv = img@;
                        let k = keyed(img);
                        insert_sorted(&mut list, k);
                        proof {
                            let f2 = found_before.push(iv);
                            assert(tag_images(page_url@, seen, seen.len()) == Ok::<
                                Seq<Seq<char>>,
                                Seq<char>,
                            >(f2));
                            assert forall|x: Seq<char>| f2.contains(x) <==> (found_before.contains(
                                x,
                            ) || x == iv) by {
                                if f2.contains(x) {
                                    let m = choose|m: int| 0 <= m < f2.len() && f2[m] == x;
                                    if m < found_before.len() {
                                        assert(found_before[m] == x);
                                    }
                                }
                                if found_before.contains(x) {
                                    let m = choose|m: int|
                                        0 <= m < found_before.len() && found_before[m] == x;
                                    assert(f2[m] == x);
                                }
                                if x == iv {
                                    assert(f2[f2.len() - 1] == x);
                                }
                            }
                        }
                    },
                }
                p = e;
            },
            None => {
                assert(img_tags(u@, p as int) == img_tags(u@, p + 1));
                p = p + 1;
            },
        }
    }
    assert(img_tags(u@, p as int) =~= Seq::<Seq<char>>::empty());
    assert(seen =~= tags);
    let mut out: Vec<String> = Vec::new();
    let mut i: usize = 0;
    while i < list.len()
        invariant
            i <= list.len(),
            out@.map_values(|s: String| s@) =~= keyed_urls(list@).take(i as int),
        decreases list.len() - i,
    {
        let s = string_of(list[i].url.as_slice());
        let ghost before = out@;
        out.push(s);
        assert(out@.map_values(|s: String| s@) =~= before.map_values(|s: String| s@).push(
            list@[i as int].url@,
        ));
        assert(keyed_urls(list@).take(i + 1) =~= keyed_urls(list@).take(i as int).push(
            list@[i as int].url@,
        ));
        i = i + 1;
    }
    assert(keyed_urls(list@).take(list.len() as int) =~= keyed_urls(list@));
    Ok(out)
}

/// `tag_images` over a prefix of the tags depends on that prefix alone.
proof fn lemma_tag_images_prefix(page: Seq<char>, a: Seq<Seq<char>>, b: Seq<Seq<char>>, k: nat)
    requires
        k <= a.len() <= b.len(),
        forall|i: int| 0 <= i < a.len() ==> a[i] == b[i],
    ensures
        tag_images(page, b, k) == tag_images(page, a, k),
    decreases k,
{
    if k > 0 {
        lemma_tag_images_prefix(page, a, b, (k - 1) as nat);
    }
}

proof fn lemma_tag_images_prefix_rest(page: Seq<char>, seen: Seq<Seq<char>>, tags: Seq<Seq<char>>)
    requires
        seen.len() <= tags.len(),
        forall|i: int| 0 <= i < seen.len() ==> seen[i] == tags[i],
    ensures
        tag_images(page, tags, seen.len()) == tag_images(page, seen, seen.len()),
{
    lemma_tag_images_prefix(page, seen, tags, seen.len());
}

} // verus!
