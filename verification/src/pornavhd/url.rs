//! pornavhd.com post URLs.

use crate::naming::{ensure_ext, with_ext};
use crate::pattern::{
    ci_lit_at, ci_lit_at_exec, class_has, class_pred, no_newline_from, no_newline_from_exec, run_end, run_end_exec, Class,
};
use crate::text::{
    chars_of, concat, contains, contains_exec, ends_with, is_nd, is_nd_exec, lower, lower_exec,
    slice_vec, starts_with, starts_with_exec, string_of, trim, trim_exec,
};
use crate::weburl::{parse_url, url_parse, UrlView};
use vstd::prelude::*;

verus! {

/// A post: its canonical URL (no query, no fragment, a trailing `/`) and
/// its slug.
#[derive(Debug)]
pub struct PostRef {
    pub url: String,
    pub slug: String,
}

#[derive(Debug, Clone, PartialEq, Eq)]
pub enum PostError {
    /// The input is no post URL; holds the input.
    NotPostUrl(String),
    /// The URL parser refused the input.
    InvalidUrl,
    /// A category, actor or tag listing.
    ListingPage,
}

impl PostError {
    pub open spec fn spec_message(self) -> Seq<char> {
        match self {
            PostError::NotPostUrl(i) => "not a pornavhd post URL: "@ + i@,
            PostError::InvalidUrl => "parse url"@,
            PostError::ListingPage => "category/actor/tag pages are not supported; pass a single post URL"@,
        }
    }

    pub fn message(&self) -> (m: String)
        ensures
            m@ == self.spec_message(),
    {
        match self {
            PostError::NotPostUrl(i) => {
                let v = chars_of(i.as_str());
                crate::text::lit_then("not a pornavhd post URL: ", v.as_slice())
            },
            PostError::InvalidUrl => String::from_str("parse url"),
            PostError::ListingPage => String::from_str(
                "category/actor/tag pages are not supported; pass a single post URL",
            ),
        }
    }
}

/// What `Url::parse` of `text`, with query and fragment removed and the
/// path set to `path` (`set_query(None)`, `set_fragment(None)`,
/// `set_path`), serializes to; `None` where `text` does not parse.
pub uninterp spec fn url_with_path(text: Seq<char>, path: Seq<char>) -> Option<Seq<char>>;

/// `url::Url::parse`, then `set_query(None)`, `set_fragment(None)` and
/// `set_path(path)`, then `to_string`. Only the name `url_with_path` ties
/// the result to the arguments.
#[verifier::external_body]
fn replace_url_path(text: &str, path: &str) -> (r: Option<String>)
    ensures
        crate::weburl::opt_view(r) == url_with_path(text@, path@),
{
    let mut u = url::Url::parse(text).ok()?;
    u.set_query(None);
    u.set_fragment(None);
    u.set_path(path);
    Some(u.to_string())
}

/// Where `^https?://(?:www\.)?pornavhd\.com/` (any case) ends; `-1` when
/// it does not match.
pub open spec fn post_host_end(u: Seq<char>) -> int {
    let p0 = if ci_lit_at(u, 0, "https://"@) {
        "https://"@.len() as int
    } else if ci_lit_at(u, 0, "http://"@) {
        "http://"@.len() as int
    } else {
        -1
    };
    let p1 = if ci_lit_at(u, p0, "www."@) {
        p0 + "www."@.len()
    } else {
        p0
    };
    if p0 >= 0 && ci_lit_at(u, p1, "pornavhd.com/"@) {
        p1 + "pornavhd.com/"@.len()
    } else {
        -1
    }
}

/// `\d{n}/` at `p`.
pub open spec fn digits_then_slash(u: Seq<char>, p: int, n: int) -> bool {
    0 <= p && p + n < u.len() && (forall|j: int| p <= j < p + n ==> is_nd(#[trigger] u[j])) && u[p
        + n] == '/'
}

/// The slug captured by the whole-string match of
/// `(?ix)^https?://(?:www\.)?pornavhd\.com/\d{4}/\d{2}/\d{2}/(?P<slug>[A-Za-z0-9_-]+)/?(?:[/?\#].*)?$`.
pub open spec fn post_match(u: Seq<char>) -> Option<Seq<char>> {
    let p = post_host_end(u);
    let s = p + 11;
    let e = run_end(u, s, Class::CiSlug);
    if p >= 0 && digits_then_slash(u, p, 4) && digits_then_slash(u, p + 5, 2) && digits_then_slash(
        u,
        p + 8,
        2,
    ) && e > s && (e == u.len() || ((u[e] == '/' || u[e] == '?' || u[e] == '#')
        && no_newline_from(u, e + 1))) {
        Some(u.subrange(s, e))
    } else {
        None
    }
}

/// The input as a URL: a bare `pornavhd.com/...` gets `https://`.
pub open spec fn post_url_text(s: Seq<char>) -> Seq<char> {
    if starts_with(s, "http://"@) || starts_with(s, "https://"@) {
        s
    } else if starts_with(s, "pornavhd.com/"@) {
        "https://"@ + s
    } else {
        s
    }
}

/// The canonical form of a parsed post URL: without query and fragment,
/// with a trailing `/` on the path.
pub open spec fn canonical_post_url(text: Seq<char>, v: UrlView) -> Option<Seq<char>> {
    if ends_with(v.path, "/"@) {
        Some(v.before_query)
    } else {
        url_with_path(text, v.path + "/"@)
    }
}

/// `Ok((url, slug))` for a post URL, else the error.
pub open spec fn spec_post_url(input: Seq<char>) -> Result<(Seq<char>, Seq<char>), PostError> {
    let n = post_url_text(trim(input));
    match post_match(n) {
        None => Err(PostError::NotPostUrl(arbitrary())),
        Some(slug) => match url_parse(n) {
            None => Err(PostError::InvalidUrl),
            Some(v) => match canonical_post_url(n, v) {
                Some(url) => Ok((url, slug)),
                None => Err(PostError::InvalidUrl),
            },
        },
    }
}

/// The slug of a parsed post is a non-empty run of `(?i)[A-Za-z0-9_-]`
/// characters.
pub proof fn lemma_post_slug_shape(input: Seq<char>)
    ensures
        spec_post_url(input) matches Ok((url, slug)) ==> slug.len() > 0 && forall|k: int|
            0 <= k < slug.len() ==> class_has(Class::CiSlug, #[trigger] slug[k]),
{
    let n = post_url_text(trim(input));
    if let Some(slug) = post_match(n) {
        let p = post_host_end(n);
        let s = p + 11;
        let sub = n.subrange(s, n.len() as int);
        crate::text::lemma_lead_len_bound(sub, class_pred(Class::CiSlug));
        assert forall|k: int| 0 <= k < slug.len() implies class_has(
            Class::CiSlug,
            #[trigger] slug[k],
        ) by {
            assert(slug[k] == sub[k]);
            assert(class_pred(Class::CiSlug)(sub[k]));
        }
    }
}

fn post_host_end_exec(u: &[char]) -> (r: Option<usize>)
    ensures
        match r {
            Some(p) => p == post_host_end(u@) && p <= u.len(),
            None => post_host_end(u@) < 0,
        },
{
    proof {
        assert(u@.len() == u.len());
    }
    let https = chars_of("https://");
    let http = chars_of("http://");
    let p0: usize = if ci_lit_at_exec(u, 0, https.as_slice()) {
        https.len()
    } else if ci_lit_at_exec(u, 0, http.as_slice()) {
        http.len()
    } else {
        return None;
    };
    let www = chars_of("www.");
    let p1: usize = if ci_lit_at_exec(u, p0, www.as_slice()) {
        p0 + www.len()
    } else {
        p0
    };
    let host = chars_of("pornavhd.com/");
    if ci_lit_at_exec(u, p1, host.as_slice()) {
        Some(p1 + host.len())
    } else {
        None
    }
}

fn digits_then_slash_exec(u: &[char], p: usize, n: usize) -> (b: bool)
    requires
        p <= u.len(),
        n <= 4,
    ensures
        b == digits_then_slash(u@, p as int, n as int),
{
    if n >= u.len() - p {
        return false;
    }
    let mut j = p;
    while j < p + n
        invariant
            p <= j <= p + n < u.len(),
            forall|m: int| p <= m < j ==> is_nd(#[trigger] u@[m]),
        decreases p + n - j,
    {
        if !is_nd_exec(u[j]) {
            return false;
        }
        j = j + 1;
    }
    u[p + n] == '/'
}

fn post_match_exec(u: &[char]) -> (r: Option<Vec<char>>)
    ensures
        match r {
            Some(s) => post_match(u@) == Some(s@),
            None => post_match(u@) is None,
        },
{
    let p = match post_host_end_exec(u) {
        Some(p) => p,
        None => return None,
    };
    if !digits_then_slash_exec(u, p, 4) {
        return None;
    }
    if !digits_then_slash_exec(u, p + 5, 2) {
        return None;
    }
    if !digits_then_slash_exec(u, p + 8, 2) {
        return None;
    }
    let s = p + 11;
    let e = run_end_exec(u, s, Class::CiSlug);
    if !(e > s) {
        return None;
    }
    if e < u.len() {
        let c = u[e];
        if !((c == '/' || c == '?' || c == '#') && no_newline_from_exec(u, e + 1)) {
            return None;
        }
    }
    Some(slice_vec(u, s, e))
}

/// Parses a post URL (`https://pornavhd.com/YYYY/MM/DD/slug/...`, also
/// without scheme) into its canonical URL and slug.
pub fn parse_post_url(input: &str) -> (r: Result<PostRef, PostError>)
    ensures
        match (r, spec_post_url(input@)) {
            (Ok(p), Ok((url, slug))) => p.url@ == url && p.slug@ == slug,
            (Err(PostError::NotPostUrl(i)), Err(PostError::NotPostUrl(_))) => i@ == input@,
            (Err(e), Err(f)) => e == f,
            _ => false,
        },
{
    let v = chars_of(input);
    let s = trim_exec(v.as_slice());
    let http = chars_of("http://");
    let https = chars_of("https://");
    let bare = chars_of("pornavhd.com/");
    let n = if starts_with_exec(s.as_slice(), http.as_slice()) || starts_with_exec(
        s.as_slice(),
        https.as_slice(),
    ) {
        s
    } else if starts_with_exec(s.as_slice(), bare.as_slice()) {
        concat(https.as_slice(), s.as_slice())
    } else {
        s
    };
    let slug = match post_match_exec(n.as_slice()) {
        Some(slug) => slug,
        None => return Err(PostError::NotPostUrl(input.to_owned())),
    };
    let text = string_of(n.as_slice());
    let parsed = match parse_url(text.as_str()) {
        Some(u) => u,
        None => return Err(PostError::InvalidUrl),
    };
    let pv = chars_of(parsed.path.as_str());
    let slash = chars_of("/");
    let url = if crate::text::ends_with_exec(pv.as_slice(), slash.as_slice()) {
        parsed.before_query
    } else {
        let p2 = string_of(concat(pv.as_slice(), slash.as_slice()).as_slice());
        match replace_url_path(text.as_str(), p2.as_str()) {
            Some(u) => u,
            None => return Err(PostError::InvalidUrl),
        }
    };
    Ok(PostRef { url, slug: string_of(slug.as_slice()) })
}

/// `{slug}.mp4`, unless the slug already ends with `.mp4` (any ASCII case).
pub fn default_filename(slug: &str) -> (r: String)
    ensures
        r@ == with_ext(slug@, ".mp4"@),
{
    ensure_ext(slug, ".mp4")
}

/// `name`, with `.mp4` appended unless it already ends so (any ASCII case).
pub fn ensure_mp4(name: &str) -> (r: String)
    ensures
        r@ == with_ext(name@, ".mp4"@),
{
    ensure_ext(name, ".mp4")
}

/// A category, actor or tag listing (ASCII case ignored).
pub open spec fn is_listing(input: Seq<char>) -> bool {
    let s = lower(input);
    contains(s, "/category/"@) || contains(s, "/actor/"@) || contains(s, "/tag/"@)
}

/// Refuses category, actor and tag listing URLs.
pub fn reject_non_post(input: &str) -> (r: Result<(), PostError>)
    ensures
        is_listing(input@) ==> r == Err::<(), PostError>(PostError::ListingPage),
        !is_listing(input@) ==> r is Ok,
{
    let v = chars_of(input);
    let s = lower_exec(v.as_slice());
    let a = chars_of("/category/");
    let b = chars_of("/actor/");
    let c = chars_of("/tag/");
    if contains_exec(s.as_slice(), a.as_slice()) || contains_exec(s.as_slice(), b.as_slice())
        || contains_exec(s.as_slice(), c.as_slice()) {
        Err(PostError::ListingPage)
    } else {
        Ok(())
    }
}

} // verus!
