//! The reader payload of a work (`mReader.initData({...})`): its ordered
//! page image URLs.

use crate::json::{jarray, jget, json_array, json_get, json_node, json_str, jstr};
use crate::pattern::{lit_at, lit_at_exec, run_end, run_end_exec, Class};
use crate::text::{chars_of, slice_vec, string_of};
use crate::wnacg::url::{spec_image_url, validate_image_url, ImageUrlError};
use vstd::prelude::*;

verus! {

/// Why the reader payload gave no page list.
#[derive(Debug, Clone, PartialEq, Eq)]
pub enum ItemError {
    /// No `mReader.initData({...})` call.
    NoPayload,
    /// The payload is no JSON.
    BadJson,
    /// The payload has no `page_url` array.
    NoPageUrls,
    /// `page_url[i]` is no string.
    NotString(usize),
    /// `page_url[i]` is no allowed image URL.
    InvalidPage(usize, ImageUrlError),
}

impl ItemError {
    pub fn message(&self) -> (m: String)
        ensures
            match self {
                ItemError::NoPayload => m@
                    == "no mReader.initData JSON payload in WNACG item response"@,
                ItemError::BadJson => m@ == "parse WNACG item JSON"@,
                ItemError::NoPageUrls => m@ == "WNACG item JSON has no page_url array"@,
                ItemError::NotString(i) => m@ == "WNACG page_url["@
                    + crate::text::dec_digits(*i as nat) + "] is not a string"@,
                ItemError::InvalidPage(i, e) => m@ == "invalid WNACG page_url["@
                    + crate::text::dec_digits(*i as nat) + "]: "@ + e.spec_message(),
            },
    {
        match self {
            ItemError::NoPayload => String::from_str(
                "no mReader.initData JSON payload in WNACG item response",
            ),
            ItemError::BadJson => String::from_str("parse WNACG item JSON"),
            ItemError::NoPageUrls => String::from_str("WNACG item JSON has no page_url array"),
            ItemError::NotString(i) => {
                let a = chars_of("WNACG page_url[");
                let b = crate::text::dec_string(*i as u64);
                let c = chars_of("] is not a string");
                let ab = crate::text::concat(a.as_slice(), b.as_slice());
                string_of(crate::text::concat(ab.as_slice(), c.as_slice()).as_slice())
            },
            ItemError::InvalidPage(i, e) => {
                let a = chars_of("invalid WNACG page_url[");
                let b = crate::text::dec_string(*i as u64);
                let c = chars_of("]: ");
                let d = chars_of(e.message().as_str());
                let ab = crate::text::concat(a.as_slice(), b.as_slice());
                let abc = crate::text::concat(ab.as_slice(), c.as_slice());
                string_of(crate::text::concat(abc.as_slice(), d.as_slice()).as_slice())
            },
        }
    }
}

/// What went wrong, as far as the contracts tell errors apart.
pub enum ItemFault {
    NoPayload,
    BadJson,
    NoPageUrls,
    NotString(nat),
    InvalidPage(nat),
}

pub open spec fn item_fault(e: ItemError) -> ItemFault {
    match e {
        ItemError::NoPayload => ItemFault::NoPayload,
        ItemError::BadJson => ItemFault::BadJson,
        ItemError::NoPageUrls => ItemFault::NoPageUrls,
        ItemError::NotString(i) => ItemFault::NotString(i as nat),
        ItemError::InvalidPage(i, _) => ItemFault::InvalidPage(i as nat),
    }
}

/// `\s*\)` at `i`.
pub open spec fn close_paren_at(u: Seq<char>, i: int) -> bool {
    let w = run_end(u, i, Class::Space);
    w < u.len() && u[w] == ')'
}

/// The first `}` at or after `from` followed by `\s*\)`.
pub open spec fn payload_close(u: Seq<char>, from: int) -> Option<int>
    decreases u.len() - from,
{
    if from < 0 || from >= u.len() {
        None
    } else if u[from] == '}' && close_paren_at(u, from + 1) {
        Some(from)
    } else {
        payload_close(u, from + 1)
    }
}

/// The JSON object captured by a match of
/// `(?s)mReader\.initData\s*\(\s*(?P<json>\{.*?\})\s*\)` at `p`.
pub open spec fn payload_at(u: Seq<char>, p: int) -> Option<Seq<char>> {
    let a = run_end(u, p + 16, Class::Space);
    let b = run_end(u, a + 1, Class::Space);
    if lit_at(u, p, "mReader.initData"@) && a < u.len() && u[a] == '(' && b < u.len() && u[b]
        == '{' {
        match payload_close(u, b + 1) {
            Some(t) => Some(u.subrange(b, t + 1)),
            None => None,
        }
    } else {
        None
    }
}

pub open spec fn first_payload(u: Seq<char>, from: int) -> Option<Seq<char>>
    decreases u.len() - from,
{
    if from < 0 || from >= u.len() {
        None
    } else {
        match payload_at(u, from) {
            Some(j) => Some(j),
            None => first_payload(u, from + 1),
        }
    }
}

/// `u[from..]` with every `,\s*]` and `,\s*}` reduced to the bracket.
pub open spec fn drop_trailing_commas(u: Seq<char>, from: int) -> Seq<char>
    decreases u.len() - from,
{
    if from < 0 || from >= u.len() {
        Seq::empty()
    } else {
        let w = run_end(u, from + 1, Class::Space);
        if u[from] == ',' && w < u.len() && (u[w] == ']' || u[w] == '}') && from < w {
            seq![u[w]] + drop_trailing_commas(u, w + 1)
        } else {
            seq![u[from]] + drop_trailing_commas(u, from + 1)
        }
    }
}

/// The page URLs of `pages[..n]`, each checked against the image CDN
/// allowlist, or the first fault.
pub open spec fn page_urls(pages: Seq<Seq<char>>, n: nat) -> Result<Seq<Seq<char>>, ItemFault>
    decreases n,
{
    if n == 0 || n > pages.len() {
        Ok(Seq::empty())
    } else {
        match page_urls(pages, (n - 1) as nat) {
            Err(f) => Err(f),
            Ok(prev) => match jstr(pages[n - 1]) {
                None => Err(ItemFault::NotString((n - 1) as nat)),
                Some(raw) => match spec_image_url(raw) {
                    Ok(u) => Ok(prev.push(u)),
                    Err(_) => Err(ItemFault::InvalidPage((n - 1) as nat)),
                },
            },
        }
    }
}

/// The ordered page URLs that a reader payload lists.
pub open spec fn spec_item_urls(script: Seq<char>) -> Result<Seq<Seq<char>>, ItemFault> {
    match first_payload(script, 0) {
        None => Err(ItemFault::NoPayload),
        Some(j) => {
            let n = drop_trailing_commas(j, 0);
            if json_node(n) is None {
                Err(ItemFault::BadJson)
            } else {
                match jget(n, "page_url"@) {
                    Some(a) => match jarray(a) {
                        Some(pages) => page_urls(pages, pages.len()),
                        None => Err(ItemFault::NoPageUrls),
                    },
                    None => Err(ItemFault::NoPageUrls),
                }
            }
        },
    }
}

fn close_paren_at_exec(u: &[char], i: usize) -> (b: bool)
    requires
        i <= u.len(),
    ensures
        b == close_paren_at(u@, i as int),
{
    let w = run_end_exec(u, i, Class::Space);
    w < u.len() && u[w] == ')'
}

fn payload_at_exec(u: &[char], p: usize) -> (r: Option<Vec<char>>)
    requires
        p <= u.len(),
    ensures
        match r {
            Some(j) => payload_at(u@, p as int) == Some(j@),
            None => payload_at(u@, p as int) is None,
        },
{
    let head = chars_of("mReader.initData");
    proof {
        reveal_strlit("mReader.initData");
    }
    if !lit_at_exec(u, p, head.as_slice()) {
        return None;
    }
    let a = run_end_exec(u, p + 16, Class::Space);
    if !(a < u.len() && u[a] == '(') {
        return None;
    }
    let b = run_end_exec(u, a + 1, Class::Space);
    if !(b < u.len() && u[b] == '{') {
        return None;
    }
    match payload_close_exec(u, b + 1) {
        Some(t) => Some(slice_vec(u, b, t + 1)),
        None => None,
    }
}

fn payload_close_exec(u: &[char], from: usize) -> (r: Option<usize>)
    requires
        from <= u.len(),
    ensures
        match r {
            Some(t) => payload_close(u@, from as int) == Some(t as int) && from <= t < u.len(),
            None => payload_close(u@, from as int) is None,
        },
{
    let mut t = from;
    while t < u.len()
        invariant
            from <= t <= u.len(),
            payload_close(u@, from as int) == payload_close(u@, t as int),
        decreases u.len() - t,
    {
        if u[t] == '}' && close_paren_at_exec(u, t + 1) {
            return Some(t);
        }
        t = t + 1;
    }
    None
}

fn first_payload_exec(u: &[char]) -> (r: Option<Vec<char>>)
    ensures
        match r {
            Some(j) => first_payload(u@, 0) == Some(j@),
            None => first_payload(u@, 0) is None,
        },
{
    let mut p: usize = 0;
    while p < u.len()
        invariant
            p <= u.len(),
            first_payload(u@, 0) == first_payload(u@, p as int),
        decreases u.len() - p,
    {
        match payload_at_exec(u, p) {
            Some(j) => {
                return Some(j);
            },
            None => {},
        }
        p = p + 1;
    }
    None
}

proof fn lemma_page_urls_err_sticks(pages: Seq<Seq<char>>, k: nat, n: nat)
    requires
        k <= n <= pages.len(),
        page_urls(pages, k) is Err,
    ensures
        page_urls(pages, n) == page_urls(pages, k),
    decreases n,
{
    if n > k {
        lemma_page_urls_err_sticks(pages, k, (n - 1) as nat);
    }
}

fn drop_trailing_commas_exec(u: &[char]) -> (r: Vec<char>)
    ensures
        r@ == drop_trailing_commas(u@, 0),
{
    let mut out: Vec<char> = Vec::new();
    let mut i: usize = 0;
    while i < u.len()
        invariant
            i <= u.len(),
            drop_trailing_commas(u@, 0) == out@ + drop_trailing_commas(u@, i as int),
        decreases u.len() - i,
    {
        let w = run_end_exec(u, i + 1, Class::Space);
        let ghost before = out@;
        if u[i] == ',' && w < u.len() && (u[w] == ']' || u[w] == '}') {
            out.push(u[w]);
            assert(out@ + drop_trailing_commas(u@, w + 1) =~= before + (seq![u@[w as int]]
                + drop_trailing_commas(u@, w + 1)));
            i = w + 1;
        } else {
            out.push(u[i]);
            assert(out@ + drop_trailing_commas(u@, i + 1) =~= before + (seq![u@[i as int]]
                + drop_trailing_commas(u@, i + 1)));
            i = i + 1;
        }
    }
    assert(out@ + drop_trailing_commas(u@, i as int) =~= out@);
    out
}

fn is_json(text: &str) -> (b: bool)
    ensures
        b == (json_node(text@) is Some),
{
    crate::json::json_parses(text)
}

/// The ordered page image URLs of a reader payload
/// (`mReader.initData({"page_url": [...]})`), each checked against the
/// image CDN allowlist; the order is the reader's, not sorted.
pub fn parse_item_image_urls(script: &str) -> (r: Result<Vec<String>, ItemError>)
    ensures
        match r {
            Ok(v) => spec_item_urls(script@) == Ok::<Seq<Seq<char>>, ItemFault>(
                v@.map_values(|s: String| s@),
            ),
            Err(e) => spec_item_urls(script@) == Err::<Seq<Seq<char>>, ItemFault>(item_fault(e)),
        },
{
    let u = chars_of(script);
    let json = match first_payload_exec(u.as_slice()) {
        Some(j) => j,
        None => return Err(ItemError::NoPayload),
    };
    let normalized = string_of(drop_trailing_commas_exec(json.as_slice()).as_slice());
    if !is_json(normalized.as_str()) {
        return Err(ItemError::BadJson);
    }
    let pages = match json_get(normalized.as_str(), "page_url") {
        Some(a) => match json_array(a.as_str()) {
            Some(pages) => pages,
            None => return Err(ItemError::NoPageUrls),
        },
        None => return Err(ItemError::NoPageUrls),
    };
    let ghost pv = pages@.map_values(|s: String| s@);
    let mut urls: Vec<String> = Vec::new();
    let mut i: usize = 0;
    assert(urls@.map_values(|s: String| s@) =~= Seq::<Seq<char>>::empty());
    while i < pages.len()
        invariant
            i <= pages.len(),
            pv == pages@.map_values(|s: String| s@),
            spec_item_urls(script@) == page_urls(pv, pv.len()),
            page_urls(pv, i as nat) == Ok::<Seq<Seq<char>>, ItemFault>(
                urls@.map_values(|s: String| s@),
            ),
        decreases pages.len() - i,
    {
        assert(pv[i as int] == pages@[i as int]@);
        let raw = match json_str(pages[i].as_str()) {
            Some(raw) => raw,
            None => {
                proof {
                    lemma_page_urls_err_sticks(pv, (i + 1) as nat, pv.len());
                }
                return Err(ItemError::NotString(i));
            },
        };
        match validate_image_url(raw.as_str()) {
            Ok(url) => {
                let ghost before = urls@;
                urls.push(url);
                assert(urls@.map_values(|s: String| s@) =~= before.map_values(|s: String| s@).push(
                    url@,
                ));
            },
            Err(e) => {
                proof {
                    lemma_page_urls_err_sticks(pv, (i + 1) as nat, pv.len());
                }
                return Err(ItemError::InvalidPage(i, e));
            },
        }
        i = i + 1;
    }
    Ok(urls)
}

} // verus!
