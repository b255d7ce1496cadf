//! SpankBang video page URLs and output names.

use crate::naming::{ensure_ext, with_ext};
use crate::text::{
    chars_of, concat, contains, contains_exec, ends_with, ends_with_exec, is_ascii_alnum,
    is_char, is_control, is_control_exec, keep_nonempty, lower, lower_exec, nonempty,
    starts_with, starts_with_exec, string_of, trim, trim_end_by, trim_end_char, trim_exec, views,
};
use crate::weburl::{parse_url, url_parse};
use vstd::prelude::*;

verus! {

/// A video page: its URL without query, fragment and trailing `/`, and its
/// id (lower case).
#[derive(Debug)]
pub struct VideoRef {
    pub url: String,
    pub id: String,
}

#[derive(Debug, Clone, Copy, PartialEq, Eq, Structural)]
pub enum VideoUrlError {
    InvalidUrl,
    BadScheme,
    NoHost,
    UnsupportedHost,
    CannotBeBase,
    NotVideo,
}

impl VideoUrlError {
    pub open spec fn spec_message(self) -> Seq<char> {
        match self {
            VideoUrlError::InvalidUrl => "parse SpankBang URL"@,
            VideoUrlError::BadScheme => "SpankBang URL must use http or https"@,
            VideoUrlError::NoHost => "SpankBang URL is missing a host"@,
            VideoUrlError::UnsupportedHost => "not a supported SpankBang host"@,
            VideoUrlError::CannotBeBase => "SpankBang URL cannot be a base URL"@,
            VideoUrlError::NotVideo => "not a single SpankBang video URL"@,
        }
    }

    pub fn message(&self) -> (m: String)
        ensures
            m@ == self.spec_message(),
    {
        match self {
            VideoUrlError::InvalidUrl => String::from_str("parse SpankBang URL"),
            VideoUrlError::BadScheme => String::from_str("SpankBang URL must use http or https"),
            VideoUrlError::NoHost => String::from_str("SpankBang URL is missing a host"),
            VideoUrlError::UnsupportedHost => String::from_str("not a supported SpankBang host"),
            VideoUrlError::CannotBeBase => String::from_str("SpankBang URL cannot be a base URL"),
            VideoUrlError::NotVideo => String::from_str("not a single SpankBang video URL"),
        }
    }
}

/// The input as a URL: a scheme-less SpankBang address gets `https://`.
pub open spec fn video_url_text(s: Seq<char>) -> Seq<char> {
    if starts_with(s, "http://"@) || starts_with(s, "https://"@) {
        s
    } else if contains(s, "spankbang.com/"@) || contains(s, "spankbang.party/"@) {
        "https://"@ + s
    } else {
        s
    }
}

/// `spankbang.com`, `spankbang.party`, or a subdomain of either.
pub open spec fn host_supported(h: Seq<char>) -> bool {
    h == "spankbang.com"@ || ends_with(h, ".spankbang.com"@) || h == "spankbang.party"@
        || ends_with(h, ".spankbang.party"@)
}

pub open spec fn is_video_word(s: Seq<char>) -> bool {
    s == "video"@ || s == "play"@ || s == "embed"@
}

pub open spec fn all_ascii_alnum(s: Seq<char>) -> bool {
    forall|i: int| 0 <= i < s.len() ==> is_ascii_alnum(#[trigger] s[i])
}

/// `Ok((url, id))` for a single video page, else why not.
pub open spec fn spec_video_url(input: Seq<char>) -> Result<(Seq<char>, Seq<char>), VideoUrlError> {
    let n = video_url_text(trim(input));
    match url_parse(n) {
        None => Err(VideoUrlError::InvalidUrl),
        Some(v) => if !(v.scheme == "http"@ || v.scheme == "https"@) {
            Err(VideoUrlError::BadScheme)
        } else {
            match v.host {
                None => Err(VideoUrlError::NoHost),
                Some(h) => if !host_supported(lower(h)) {
                    Err(VideoUrlError::UnsupportedHost)
                } else {
                    match v.segments {
                        None => Err(VideoUrlError::CannotBeBase),
                        Some(segs) => {
                            let parts = segs.filter(nonempty());
                            if parts.len() < 2 || !is_video_word(parts[1]) || parts[0].len() == 0
                                || !all_ascii_alnum(parts[0]) {
                                Err(VideoUrlError::NotVideo)
                            } else {
                                Ok(
                                    (
                                        trim_end_by(v.before_query, is_char('/')),
                                        lower(parts[0]),
                                    ),
                                )
                            }
                        },
                    }
                },
            }
        },
    }
}

/// A parsed video page's id is a non-empty run of ASCII digits and
/// lower-case ASCII letters, and its URL does not end with `/`.
pub proof fn lemma_video_ref_shape(input: Seq<char>)
    ensures
        spec_video_url(input) matches Ok((url, id)) ==> {
            &&& id.len() > 0
            &&& forall|k: int|
                0 <= k < id.len() ==> ('0' <= #[trigger] id[k] && id[k] <= '9') || ('a' <= id[k]
                    && id[k] <= 'z')
            &&& !ends_with(url, "/"@)
        },
{
    if let Ok((url, id)) = spec_video_url(input) {
        let n = video_url_text(trim(input));
        let v = url_parse(n)->Some_0;
        let segs = v.segments->Some_0;
        let parts = segs.filter(nonempty());
        assert forall|k: int| 0 <= k < id.len() implies ('0' <= #[trigger] id[k] && id[k] <= '9')
            || ('a' <= id[k] && id[k] <= 'z') by {
            assert(is_ascii_alnum(parts[0][k]));
            assert(id[k] == crate::text::to_lower(parts[0][k]));
        }
        let b = v.before_query;
        crate::text::lemma_trail_len_bound(b, is_char('/'));
        reveal_strlit("/");
        if url.len() > 0 {
            assert(url.skip(url.len() - 1)[0] == url[url.len() - 1]);
            assert(url[url.len() - 1] == b[b.len() - 1 - crate::text::trail_len(b, is_char('/'))]);
        }
    }
}

/// Video, play and embed pages are all accepted: an `http(s)` URL on
/// `spankbang.com`, `spankbang.party` or a subdomain of either, whose first
/// two non-empty path segments are an ASCII-alphanumeric id and one of
/// `video`, `play`, `embed`, parses to that id in lower case and to the URL
/// before its query, without trailing `/`.
pub proof fn lemma_video_pages_accepted(input: Seq<char>, v: crate::weburl::UrlView)
    requires
        trim(input) == input,
        starts_with(input, "https://"@) || starts_with(input, "http://"@),
        url_parse(input) == Some(v),
        v.scheme == "https"@ || v.scheme == "http"@,
        v.host matches Some(h) && (lower(h) == "spankbang.com"@ || ends_with(
            lower(h),
            ".spankbang.com"@,
        ) || lower(h) == "spankbang.party"@ || ends_with(lower(h), ".spankbang.party"@)),
        v.segments matches Some(segs) && ({
            let parts = segs.filter(nonempty());
            &&& parts.len() >= 2
            &&& parts[0].len() > 0
            &&& forall|i: int|
                0 <= i < parts[0].len() ==> ('0' <= #[trigger] parts[0][i] && parts[0][i] <= '9') || (
                'a' <= parts[0][i] && parts[0][i] <= 'z') || ('A' <= parts[0][i] && parts[0][i]
                <= 'Z')
            &&& (parts[1] == "video"@ || parts[1] == "play"@ || parts[1] == "embed"@)
        }),
    ensures
        spec_video_url(input) == Ok::<(Seq<char>, Seq<char>), VideoUrlError>(
            (
                trim_end_by(v.before_query, is_char('/')),
                lower(v.segments->Some_0.filter(nonempty())[0]),
            ),
        ),
{
    let parts = v.segments->Some_0.filter(nonempty());
    assert(all_ascii_alnum(parts[0]));
}

fn char_vecs(v: &Vec<String>) -> (r: Vec<Vec<char>>)
    ensures
        views(r@) == v@.map_values(|s: String| s@),
{
    let mut r: Vec<Vec<char>> = Vec::new();
    let mut i: usize = 0;
    while i < v.len()
        invariant
            i <= v.len(),
            views(r@) =~= v@.take(i as int).map_values(|s: String| s@),
        decreases v.len() - i,
    {
        let c = chars_of(v[i].as_str());
        let ghost before = r@;
        r.push(c);
        assert(views(r@) =~= views(before).push(c@));
        assert(v@.take(i + 1).map_values(|s: String| s@) =~= v@.take(i as int).map_values(
            |s: String| s@,
        ).push(v@[i as int]@));
        i = i + 1;
    }
    assert(v@.take(v.len() as int) =~= v@);
    r
}

fn all_ascii_alnum_exec(s: &[char]) -> (b: bool)
    ensures
        b == all_ascii_alnum(s@),
{
    let mut i: usize = 0;
    while i < s.len()
        invariant
            i <= s.len(),
            forall|j: int| 0 <= j < i ==> is_ascii_alnum(#[trigger] s@[j]),
        decreases s.len() - i,
    {
        let c = s[i];
        if !(('0' <= c && c <= '9') || ('a' <= c && c <= 'z') || ('A' <= c && c <= 'Z')) {
            return false;
        }
        i = i + 1;
    }
    true
}

fn same(a: &[char], lit: &str) -> (b: bool)
    ensures
        b == (a@ == lit@),
{
    let l = chars_of(lit);
    if a.len() != l.len() {
        return false;
    }
    let r = starts_with_exec(a, l.as_slice());
    assert(r ==> a@ =~= l@) by {
        if r {
            assert(a@.take(l@.len() as int) =~= a@);
        }
    }
    r
}

/// Parses a SpankBang video page URL (`https://[sub.]spankbang.com/{id}/video/...`,
/// also `play` and `embed`, and `spankbang.party`), dropping query,
/// fragment and trailing slashes.
pub fn parse_video_url(input: &str) -> (r: Result<VideoRef, VideoUrlError>)
    ensures
        match r {
            Ok(v) => spec_video_url(input@) == Ok::<(Seq<char>, Seq<char>), VideoUrlError>(
                (v.url@, v.id@),
            ),
            Err(e) => spec_video_url(input@) == Err::<(Seq<char>, Seq<char>), VideoUrlError>(e),
        },
{
    let v = chars_of(input);
    let s = trim_exec(v.as_slice());
    let http = chars_of("http://");
    let https = chars_of("https://");
    let com = chars_of("spankbang.com/");
    let party = chars_of("spankbang.party/");
    let n = if starts_with_exec(s.as_slice(), http.as_slice()) || starts_with_exec(
        s.as_slice(),
        https.as_slice(),
    ) {
        s
    } else if contains_exec(s.as_slice(), com.as_slice()) || contains_exec(
        s.as_slice(),
        party.as_slice(),
    ) {
        concat(https.as_slice(), s.as_slice())
    } else {
        s
    };
    let text = string_of(n.as_slice());
    let url = match parse_url(text.as_str()) {
        Some(u) => u,
        None => return Err(VideoUrlError::InvalidUrl),
    };
    let scheme = chars_of(url.scheme.as_str());
    if !(same(scheme.as_slice(), "http") || same(scheme.as_slice(), "https")) {
        return Err(VideoUrlError::BadScheme);
    }
    let host = match &url.host {
        Some(h) => lower_exec(chars_of(h.as_str()).as_slice()),
        None => return Err(VideoUrlError::NoHost),
    };
    let dcom = chars_of(".spankbang.com");
    let dparty = chars_of(".spankbang.party");
    let supported = same(host.as_slice(), "spankbang.com") || ends_with_exec(
        host.as_slice(),
        dcom.as_slice(),
    ) || same(host.as_slice(), "spankbang.party") || ends_with_exec(
        host.as_slice(),
        dparty.as_slice(),
    );
    if !supported {
        return Err(VideoUrlError::UnsupportedHost);
    }
    let segs = match &url.segments {
        Some(segs) => char_vecs(segs),
        None => return Err(VideoUrlError::CannotBeBase),
    };
    let parts = keep_nonempty(segs);
    if parts.len() < 2 {
        return Err(VideoUrlError::NotVideo);
    }
    let second = parts[1].as_slice();
    if !(same(second, "video") || same(second, "play") || same(second, "embed")) {
        return Err(VideoUrlError::NotVideo);
    }
    let first = parts[0].as_slice();
    if first.len() == 0 || !all_ascii_alnum_exec(first) {
        return Err(VideoUrlError::NotVideo);
    }
    let id = lower_exec(first);
    let bq = chars_of(url.before_query.as_str());
    let canonical = trim_end_char(bq.as_slice(), '/');
    Ok(VideoRef { url: string_of(canonical.as_slice()), id: string_of(id.as_slice()) })
}

/// `{id}.mp4`.
pub fn default_filename(id: &str) -> (r: String)
    ensures
        r@ == id@ + ".mp4"@,
{
    let v = chars_of(id);
    let e = chars_of(".mp4");
    string_of(concat(v.as_slice(), e.as_slice()).as_slice())
}

/// `name`, with `.mp4` appended unless it already ends so (any ASCII case).
pub fn ensure_mp4(name: &str) -> (r: String)
    ensures
        r@ == with_ext(name@, ".mp4"@),
{
    ensure_ext(name, ".mp4")
}

/// The output name was not a plain file name.
#[derive(Debug, Clone, Copy, PartialEq, Eq, Structural)]
pub enum NameError {
    NotBasename,
}

impl NameError {
    pub fn message(&self) -> (m: String)
        ensures
            m@ == "output name must be a non-empty basename"@,
    {
        String::from_str("output name must be a non-empty basename")
    }
}

/// A name that is no plain file name: empty, `.`, `..`, holding a `/` or
/// `\`, or a control character.
pub open spec fn bad_basename(n: Seq<char>) -> bool {
    n.len() == 0 || n == "."@ || n == ".."@ || n.contains('/') || n.contains('\\') || exists|i: int|
        0 <= i < n.len() && is_control(#[trigger] n[i])
}

/// The output file name: `{id}.mp4`, or the requested name (trimmed) as an
/// `.mp4`, refused when it is not a plain file name.
pub open spec fn spec_output_filename(requested: Option<Seq<char>>, id: Seq<char>) -> Option<
    Seq<char>,
> {
    match requested {
        None => Some(id + ".mp4"@),
        Some(r) => {
            let t = trim(r);
            if bad_basename(t) {
                None
            } else {
                Some(with_ext(t, ".mp4"@))
            }
        },
    }
}

pub fn output_filename(requested: Option<&str>, id: &str) -> (r: Result<String, NameError>)
    ensures
        match r {
            Ok(n) => spec_output_filename(
                match requested {
                    Some(q) => Some(q@),
                    None => None,
                },
                id@,
            ) == Some(n@),
            Err(_) => spec_output_filename(
                match requested {
                    Some(q) => Some(q@),
                    None => None,
                },
                id@,
            ) is None,
        },
{
    let requested = match requested {
        None => return Ok(default_filename(id)),
        Some(q) => q,
    };
    let v = chars_of(requested);
    let t = trim_exec(v.as_slice());
    let mut has_control = false;
    let mut i: usize = 0;
    while i < t.len()
        invariant
            i <= t.len(),
            has_control == exists|j: int| 0 <= j < i && is_control(#[trigger] t@[j]),
        decreases t.len() - i,
    {
        if is_control_exec(t[i]) {
            has_control = true;
        }
        i = i + 1;
    }
    if t.len() == 0 || same(t.as_slice(), ".") || same(t.as_slice(), "..")
        || crate::text::has_char_exec(t.as_slice(), '/') || crate::text::has_char_exec(
        t.as_slice(),
        '\\',
    ) || has_control {
        return Err(NameError::NotBasename);
    }
    Ok(string_of(crate::naming::with_ext_exec(t.as_slice(), ".mp4").as_slice()))
}

} // verus!
