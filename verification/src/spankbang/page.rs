//! The media URL in a SpankBang page or its reader rendering.

use crate::pattern::{class_has, lit_at, lit_at_exec, run_end, run_end_exec, Class};
use crate::spankbang::url::{parse_video_url, spec_video_url, VideoUrlError};
use crate::text::{
    chars_of, concat, is_nd, lower, lower_exec, replace_lit, replace_lit_exec, slice_vec,
    string_of,
};
use crate::weburl::{parse_url, url_parse};
use vstd::prelude::*;

verus! {

/// A direct media URL and its (lower-case) host.
#[derive(Debug)]
pub struct MediaSource {
    pub url: String,
    pub host: String,
}

#[derive(Debug, Clone, Copy, PartialEq, Eq, Structural)]
pub enum MediaError {
    /// No candidate URL passed the allowlist.
    NoAllowedMedia,
}

impl MediaError {
    pub fn message(&self) -> (m: String)
        ensures
            m@ == "no allowlisted SpankBang media URL found"@,
    {
        String::from_str("no allowlisted SpankBang media URL found")
    }
}

/// How the media URL was found.
#[derive(Debug, Clone, Copy, PartialEq, Eq, Structural)]
pub enum ExtractionRoute {
    SiteHtml,
    ReaderProxy,
}

impl ExtractionRoute {
    pub open spec fn spec_label(self) -> Seq<char> {
        match self {
            ExtractionRoute::SiteHtml => "site-html"@,
            ExtractionRoute::ReaderProxy => "reader-proxy"@,
        }
    }

    pub fn label(self) -> (r: &'static str)
        ensures
            r@ == self.spec_label(),
    {
        match self {
            ExtractionRoute::SiteHtml => "site-html",
            ExtractionRoute::ReaderProxy => "reader-proxy",
        }
    }
}

/// The page text with `\/` read as `/` and `&amp;` as `&`.
pub open spec fn normalize_document(d: Seq<char>) -> Seq<char> {
    replace_lit(replace_lit(d, "\\/"@, "/"@), "&amp;"@, "&"@)
}

/// The last start `t` in `[lo, hi - 4]` of `.mp4`, or `lo - 1`.
pub open spec fn last_mp4(u: Seq<char>, lo: int, hi: int) -> int
    decreases hi - lo,
{
    if hi - 4 < lo {
        lo - 1
    } else if lit_at(u, hi - 4, ".mp4"@) {
        hi - 4
    } else {
        last_mp4(u, lo, hi - 1)
    }
}

/// Where a match of `https://[^\s'"<>)]+\.mp4(?:\?[^\s'"<>)]+)?` that
/// starts at `p` ends; `-1` when none starts there.
pub open spec fn media_end(u: Seq<char>, p: int) -> int {
    let r = run_end(u, p + 8, Class::UrlChar);
    let t = last_mp4(u, p + 9, r);
    if lit_at(u, p, "https://"@) && t >= p + 9 {
        if t + 5 < u.len() && u[t + 4] == '?' && class_has(Class::UrlChar, u[t + 5]) {
            run_end(u, t + 5, Class::UrlChar)
        } else {
            t + 4
        }
    } else {
        -1
    }
}

/// `^vdownload(?:-\d+)?\.sb-cd\.com$`.
pub open spec fn is_media_host(h: Seq<char>) -> bool {
    let d = run_end(h, 10, Class::Digit);
    h == "vdownload.sb-cd.com"@ || (h.len() > 10 && h.subrange(0, 10) == "vdownload-"@ && d > 10
        && h.subrange(d, h.len() as int) == ".sb-cd.com"@)
}

/// The lower-case host of a candidate URL that passes the allowlist: an
/// `https` URL without user, password or explicit port, on a
/// `vdownload[-N].sb-cd.com` host.
pub open spec fn allowed_media(c: Seq<char>) -> Option<Seq<char>> {
    match url_parse(c) {
        Some(v) => match v.host {
            Some(h) => if v.scheme == "https"@ && v.username.len() == 0 && v.password is None
                && v.port is None && is_media_host(lower(h)) {
                Some(lower(h))
            } else {
                None
            },
            None => None,
        },
        None => None,
    }
}

/// The first match from `from` on that passes the allowlist, with its host.
pub open spec fn first_media(u: Seq<char>, from: int) -> Option<(Seq<char>, Seq<char>)>
    decreases u.len() - from,
{
    if from < 0 || from >= u.len() {
        None
    } else {
        let e = media_end(u, from);
        if from < e <= u.len() {
            match allowed_media(u.subrange(from, e)) {
                Some(h) => Some((u.subrange(from, e), h)),
                None => first_media(u, e),
            }
        } else {
            first_media(u, from + 1)
        }
    }
}

/// The matches of the media pattern from `from` on, as `find_iter` yields
/// them: leftmost first, each search resuming where the last match ended.
pub open spec fn media_matches(u: Seq<char>, from: int) -> Seq<(int, int)>
    decreases u.len() - from,
{
    if from < 0 || from >= u.len() {
        Seq::empty()
    } else {
        let e = media_end(u, from);
        if from < e <= u.len() {
            seq![(from, e)] + media_matches(u, e)
        } else {
            media_matches(u, from + 1)
        }
    }
}

pub open spec fn match_text(u: Seq<char>, m: (int, int)) -> Seq<char> {
    u.subrange(m.0, m.1)
}

proof fn lemma_first_media(u: Seq<char>, from: int)
    ensures
        ({
            let ms = media_matches(u, from);
            &&& first_media(u, from) is Some <==> exists|k: int|
                0 <= k < ms.len() && #[trigger] allowed_media(match_text(u, ms[k])) is Some
            &&& first_media(u, from) matches Some((c, h)) ==> exists|k: int|
                0 <= k < ms.len() && c == match_text(u, ms[k]) && allowed_media(c) == Some(h)
                    && forall|j: int| 0 <= j < k ==> #[trigger] allowed_media(match_text(u, ms[j])) is None
        }),
    decreases u.len() - from,
{
    if !(from < 0 || from >= u.len()) {
        let e = media_end(u, from);
        if from < e <= u.len() {
            lemma_first_media(u, e);
            let rest = media_matches(u, e);
            let ms = media_matches(u, from);
            assert(ms == seq![(from, e)] + rest);
            assert forall|k: int| 0 <= k < rest.len() implies ms[k + 1] == rest[k] by {}
            if allowed_media(match_text(u, ms[0])) is None {
                if exists|k: int| 0 <= k < ms.len() && #[trigger] allowed_media(match_text(u, ms[k])) is Some {
                    let k = choose|k: int| 0 <= k < ms.len() && #[trigger] allowed_media(match_text(u, ms[k])) is Some;
                    assert(allowed_media(match_text(u, rest[k - 1])) is Some);
                }
                if first_media(u, from) is Some {
                    let k = choose|k: int|
                        0 <= k < rest.len() && first_media(u, from)->Some_0.0 == match_text(u, rest[k])
                            && allowed_media(first_media(u, from)->Some_0.0) == Some(first_media(u, from)->Some_0.1)
                            && forall|j: int| 0 <= j < k ==> #[trigger] allowed_media(match_text(u, rest[j])) is None;
                    assert(ms[k + 1] == rest[k]);
                    assert forall|j: int| 0 <= j < k + 1 implies #[trigger] allowed_media(match_text(u, ms[j])) is None by {
                        if j > 0 {
                            assert(ms[j] == rest[j - 1]);
                        }
                    }
                }
            } else {
                assert(ms[0] == (from, e));
            }
        } else {
            lemma_first_media(u, from + 1);
        }
    }
}

/// `find_media` succeeds exactly when some match of the media pattern in
/// the unescaped page (in `find_iter` order) passes the allowlist, and then
/// gives the first such match with its lower-case host.
pub proof fn lemma_find_media_law(document: Seq<char>)
    ensures
        ({
            let n = normalize_document(document);
            let ms = media_matches(n, 0);
            &&& spec_find_media(document) is Some <==> exists|k: int|
                0 <= k < ms.len() && #[trigger] allowed_media(match_text(n, ms[k])) is Some
            &&& spec_find_media(document) matches Some((c, h)) ==> exists|k: int|
                0 <= k < ms.len() && c == match_text(n, ms[k]) && allowed_media(c) == Some(h)
                    && forall|j: int| 0 <= j < k ==> #[trigger] allowed_media(match_text(n, ms[j])) is None
        }),
        forall|c: Seq<char>| #[trigger] allowed_media(c) matches Some(h) ==> (url_parse(c) matches Some(
            v,
        ) && (v.host matches Some(hh) && h == lower(hh))),
{
    lemma_first_media(normalize_document(document), 0);
}

fn last_mp4_exec(u: &[char], lo: usize, hi: usize) -> (r: Option<usize>)
    requires
        lo <= hi <= u.len(),
    ensures
        match r {
            Some(t) => t == last_mp4(u@, lo as int, hi as int) && lo <= t && t + 4 <= hi,
            None => last_mp4(u@, lo as int, hi as int) == lo - 1,
        },
{
    let mp4 = chars_of(".mp4");
    proof {
        reveal_strlit(".mp4");
    }
    let mut j = hi;
    while j - lo >= 4
        invariant
            lo <= hi <= u.len(),
            lo <= j <= hi,
            mp4@ == ".mp4"@,
            last_mp4(u@, lo as int, hi as int) == last_mp4(u@, lo as int, j as int),
        decreases j,
    {
        if lit_at_exec(u, j - 4, mp4.as_slice()) {
            return Some(j - 4);
        }
        j = j - 1;
    }
    None
}

fn media_end_exec(u: &[char], p: usize) -> (r: Option<usize>)
    requires
        p <= u.len(),
    ensures
        match r {
            Some(e) => e == media_end(u@, p as int) && p < e <= u.len(),
            None => media_end(u@, p as int) == -1,
        },
{
    let https = chars_of("https://");
    proof {
        reveal_strlit("https://");
    }
    if !lit_at_exec(u, p, https.as_slice()) {
        return None;
    }
    let r = run_end_exec(u, p + 8, Class::UrlChar);
    if r <= p + 8 {
        proof {
            assert(last_mp4(u@, p + 9, r as int) == p + 8);
        }
        return None;
    }
    let t = match last_mp4_exec(u, p + 9, r) {
        Some(t) => t,
        None => return None,
    };
    if u.len() - t > 5 && u[t + 4] == '?' && crate::pattern::class_has_exec(
        &Class::UrlChar,
        u[t + 5],
    ) {
        Some(run_end_exec(u, t + 5, Class::UrlChar))
    } else {
        Some(t + 4)
    }
}

fn is_media_host_exec(h: &[char]) -> (b: bool)
    ensures
        b == is_media_host(h@),
{
    let plain = chars_of("vdownload.sb-cd.com");
    if h.len() == plain.len() && crate::text::starts_with_exec(h, plain.as_slice()) {
        assert(h@ =~= plain@) by {
            assert(h@.take(plain@.len() as int) =~= h@);
        }
        return true;
    }
    let head = chars_of("vdownload-");
    let tail = chars_of(".sb-cd.com");
    proof {
        reveal_strlit("vdownload-");
        reveal_strlit(".sb-cd.com");
        reveal_strlit("vdownload.sb-cd.com");
    }
    if !(h.len() > 10 && crate::text::starts_with_exec(h, head.as_slice())) {
        assert(!is_media_host(h@)) by {
            if h@.len() > 10 && h@.subrange(0, 10) == "vdownload-"@ {
                assert(h@.take(10) =~= h@.subrange(0, 10));
            }
            if h@ == "vdownload.sb-cd.com"@ {
                assert(h@.take(plain@.len() as int) =~= h@);
            }
        }
        return false;
    }
    assert(h@.subrange(0, 10) =~= h@.take(10));
    let d = run_end_exec(h, 10, Class::Digit);
    let ok = d > 10 && h.len() - d == tail.len() && crate::text::occurs_at_exec(
        h,
        tail.as_slice(),
        d,
    );
    assert(ok == (d > 10 && h@.subrange(d as int, h@.len() as int) == ".sb-cd.com"@));
    assert(h@ != "vdownload.sb-cd.com"@ || ok) by {
        if h@ == "vdownload.sb-cd.com"@ {
            assert(h@.take(plain@.len() as int) =~= h@);
        }
    }
    ok
}

fn same(a: &[char], lit: &str) -> (b: bool)
    ensures
        b == (a@ == lit@),
{
    let l = chars_of(lit);
    if a.len() != l.len() {
        return false;
    }
    let r = crate::text::starts_with_exec(a, l.as_slice());
    assert(r ==> a@ =~= l@) by {
        if r {
            assert(a@.take(l@.len() as int) =~= a@);
        }
    }
    r
}

fn allowed_media_exec(c: &str) -> (r: Option<String>)
    ensures
        crate::weburl::opt_view(r) == allowed_media(c@),
{
    let v = match parse_url(c) {
        Some(v) => v,
        None => return None,
    };
    let h = match &v.host {
        Some(h) => lower_exec(chars_of(h.as_str()).as_slice()),
        None => return None,
    };
    let scheme = chars_of(v.scheme.as_str());
    let user = chars_of(v.username.as_str());
    if same(scheme.as_slice(), "https") && user.len() == 0 && v.password.is_none()
        && v.port.is_none() && is_media_host_exec(h.as_slice()) {
        Some(string_of(h.as_slice()))
    } else {
        None
    }
}

pub open spec fn spec_find_media(document: Seq<char>) -> Option<(Seq<char>, Seq<char>)> {
    first_media(normalize_document(document), 0)
}

/// The first media URL in a page (after reading `\/` as `/` and `&amp;`
/// as `&`) that is an `https` URL on an allowlisted SpankBang download
/// host.
pub fn find_media(document: &str) -> (r: Result<MediaSource, MediaError>)
    ensures
        match r {
            Ok(m) => spec_find_media(document@) == Some((m.url@, m.host@)),
            Err(_) => spec_find_media(document@) is None,
        },
{
    let d = chars_of(document);
    let esc = chars_of("\\/");
    let slash = chars_of("/");
    let amp = chars_of("&amp;");
    let and = chars_of("&");
    proof {
        reveal_strlit("\\/");
        reveal_strlit("&amp;");
    }
    let a = replace_lit_exec(d.as_slice(), esc.as_slice(), slash.as_slice());
    let u = replace_lit_exec(a.as_slice(), amp.as_slice(), and.as_slice());
    let mut i: usize = 0;
    while i < u.len()
        invariant
            i <= u.len(),
            u@ == normalize_document(document@),
            first_media(u@, 0) == first_media(u@, i as int),
        decreases u.len() - i,
    {
        match media_end_exec(u.as_slice(), i) {
            Some(e) => {
                let c = string_of(slice_vec(u.as_slice(), i, e).as_slice());
                match allowed_media_exec(c.as_str()) {
                    Some(h) => {
                        return Ok(MediaSource { url: c, host: h });
                    },
                    None => {
                        i = e;
                    },
                }
            },
            None => {
                i = i + 1;
            },
        }
    }
    Err(MediaError::NoAllowedMedia)
}

/// The reader-proxy address of a validated video page.
pub fn reader_url(page_url: &str) -> (r: Result<String, VideoUrlError>)
    ensures
        match r {
            Ok(s) => exists|id: Seq<char>, page: Seq<char>| spec_video_url(page_url@) == Ok::<(Seq<char>, Seq<char>), VideoUrlError>((page, id)) && s@
                == "https://r.jina.ai/"@ + page,
            Err(e) => spec_video_url(page_url@) == Err::<(Seq<char>, Seq<char>), VideoUrlError>(e),
        },
{
    let page = parse_video_url(page_url)?;
    let head = chars_of("https://r.jina.ai/");
    let p = chars_of(page.url.as_str());
    Ok(string_of(concat(head.as_slice(), p.as_slice()).as_slice()))
}

/// Where the media URL comes from once the page itself was fetched (or
/// not): the page's own media URL when it has one; `None` sends the
/// caller to the reader proxy.
pub fn media_from_site(document: Option<&str>) -> (r: Option<(MediaSource, ExtractionRoute)>)
    ensures
        match document {
            Some(d) => match spec_find_media(d@) {
                Some((u, h)) => r matches Some((m, route)) && m.url@ == u && m.host@ == h && route
                    == ExtractionRoute::SiteHtml,
                None => r is None,
            },
            None => r is None,
        },
{
    match document {
        Some(d) => match find_media(d) {
            Ok(m) => Some((m, ExtractionRoute::SiteHtml)),
            Err(_) => None,
        },
        None => None,
    }
}

} // verus!
