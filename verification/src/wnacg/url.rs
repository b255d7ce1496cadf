//! WNACG work URLs and the image CDN allowlist.

use crate::pattern::{ci_lit_at, ci_lit_at_exec, run_end, run_end_exec, Class};
use crate::text::{
    chars_of, concat, lower, lower_exec, slice_vec, starts_with, starts_with_exec, string_of,
    trim, trim_exec,
};
use crate::weburl::{parse_url, url_parse, UrlView};
use vstd::prelude::*;

verus! {

/// A photo-slide work: its canonical URL and its numeric id.
#[derive(Debug)]
pub struct WorkRef {
    pub url: String,
    pub aid: String,
}

#[derive(Debug, Clone, PartialEq, Eq)]
pub enum WorkUrlError {
    /// The URL parser refused the input; holds the input.
    InvalidUrl(String),
    /// Not on `www.wnacg.com` or `wnacg.com`; holds the input.
    NotWnacg(String),
    /// Not a photo-slide page; holds the input.
    NotSlideWork(String),
}

impl WorkUrlError {
    pub open spec fn spec_message(self) -> Seq<char> {
        match self {
            WorkUrlError::InvalidUrl(i) => "invalid WNACG URL: "@ + i@,
            WorkUrlError::NotWnacg(i) => "not a WNACG URL: "@ + i@,
            WorkUrlError::NotSlideWork(i) => "not a WNACG photo-slide work URL: "@ + i@,
        }
    }

    pub fn message(&self) -> (m: String)
        ensures
            m@ == self.spec_message(),
    {
        match self {
            WorkUrlError::InvalidUrl(i) => crate::text::lit_then(
                "invalid WNACG URL: ",
                chars_of(i.as_str()).as_slice(),
            ),
            WorkUrlError::NotWnacg(i) => crate::text::lit_then(
                "not a WNACG URL: ",
                chars_of(i.as_str()).as_slice(),
            ),
            WorkUrlError::NotSlideWork(i) => crate::text::lit_then(
                "not a WNACG photo-slide work URL: ",
                chars_of(i.as_str()).as_slice(),
            ),
        }
    }
}

/// The id in a work path: `(?i)^/photos-slide-aid-(?P<aid>\d+)\.html$`.
pub open spec fn work_aid(path: Seq<char>) -> Option<Seq<char>> {
    let d = run_end(path, 18, Class::Digit);
    if ci_lit_at(path, 0, "/photos-slide-aid-"@) && d > 18 && ci_lit_at(path, d, ".html"@) && d
        + 5 == path.len() {
        Some(path.subrange(18, d))
    } else {
        None
    }
}

/// The input as a URL: a bare `www.wnacg.com/...` or `wnacg.com/...` gets
/// `https://`.
pub open spec fn work_url_text(s: Seq<char>) -> Seq<char> {
    if starts_with(s, "www.wnacg.com/"@) || starts_with(s, "wnacg.com/"@) {
        "https://"@ + s
    } else {
        s
    }
}

/// The host of a parsed URL in lower case, empty when it has none.
pub open spec fn host_or_empty(v: UrlView) -> Seq<char> {
    match v.host {
        Some(h) => lower(h),
        None => Seq::empty(),
    }
}

/// `Ok((canonical url, aid))` for a photo-slide work URL.
pub open spec fn spec_work_url(input: Seq<char>) -> Result<(Seq<char>, Seq<char>), u8> {
    match url_parse(work_url_text(trim(input))) {
        None => Err(0u8),
        Some(v) => {
            let h = host_or_empty(v);
            if h != "www.wnacg.com"@ && h != "wnacg.com"@ {
                Err(1u8)
            } else {
                match work_aid(v.path) {
                    None => Err(2u8),
                    Some(aid) => Ok(
                        ("https://www.wnacg.com/photos-slide-aid-"@ + aid + ".html"@, aid),
                    ),
                }
            }
        },
    }
}

fn same(a: &[char], lit: &str) -> (b: bool)
    ensures
        b == (a@ == lit@),
{
    let l = chars_of(lit);
    if a.len() != l.len() {
        return false;
    }
    let r = starts_with_exec(a, l.as_slice());
    assert(r ==> a@ =~= l@) by {
        if r {
            assert(a@.take(l@.len() as int) =~= a@);
        }
    }
    r
}

fn work_aid_exec(path: &[char]) -> (r: Option<Vec<char>>)
    ensures
        match r {
            Some(a) => work_aid(path@) == Some(a@),
            None => work_aid(path@) is None,
        },
{
    let head = chars_of("/photos-slide-aid-");
    let tail = chars_of(".html");
    proof {
        reveal_strlit("/photos-slide-aid-");
        reveal_strlit(".html");
    }
    if !ci_lit_at_exec(path, 0, head.as_slice()) {
        return None;
    }
    let d = run_end_exec(path, 18, Class::Digit);
    if d > 18 && ci_lit_at_exec(path, d, tail.as_slice()) && path.len() - d == 5 {
        Some(slice_vec(path, 18, d))
    } else {
        None
    }
}

/// Parses a photo-slide work URL (`https://www.wnacg.com/photos-slide-aid-N.html`,
/// also without scheme) into its canonical URL and id.
pub fn parse_work_url(input: &str) -> (r: Result<WorkRef, WorkUrlError>)
    ensures
        match (r, spec_work_url(input@)) {
            (Ok(w), Ok((url, aid))) => w.url@ == url && w.aid@ == aid,
            (Err(WorkUrlError::InvalidUrl(i)), Err(0u8)) => i@ == input@,
            (Err(WorkUrlError::NotWnacg(i)), Err(1u8)) => i@ == input@,
            (Err(WorkUrlError::NotSlideWork(i)), Err(2u8)) => i@ == input@,
            _ => false,
        },
{
    let v = chars_of(input);
    let raw = trim_exec(v.as_slice());
    let www = chars_of("www.wnacg.com/");
    let bare = chars_of("wnacg.com/");
    let normalized = if starts_with_exec(raw.as_slice(), www.as_slice()) || starts_with_exec(
        raw.as_slice(),
        bare.as_slice(),
    ) {
        let https = chars_of("https://");
        concat(https.as_slice(), raw.as_slice())
    } else {
        raw
    };
    let text = string_of(normalized.as_slice());
    let url = match parse_url(text.as_str()) {
        Some(u) => u,
        None => return Err(WorkUrlError::InvalidUrl(input.to_owned())),
    };
    let host = match &url.host {
        Some(h) => lower_exec(chars_of(h.as_str()).as_slice()),
        None => Vec::new(),
    };
    assert(host@ == host_or_empty(url@));
    if !same(host.as_slice(), "www.wnacg.com") && !same(host.as_slice(), "wnacg.com") {
        return Err(WorkUrlError::NotWnacg(input.to_owned()));
    }
    let path = chars_of(url.path.as_str());
    let aid = match work_aid_exec(path.as_slice()) {
        Some(a) => a,
        None => return Err(WorkUrlError::NotSlideWork(input.to_owned())),
    };
    let head = chars_of("https://www.wnacg.com/photos-slide-aid-");
    let tail = chars_of(".html");
    let a = concat(head.as_slice(), aid.as_slice());
    let full = concat(a.as_slice(), tail.as_slice());
    Ok(WorkRef { url: string_of(full.as_slice()), aid: string_of(aid.as_slice()) })
}

/// Why an image URL was refused.
#[derive(Debug, Clone, PartialEq, Eq)]
pub enum ImageUrlError {
    /// The URL parser refused it; holds the input.
    InvalidUrl(String),
    BadScheme,
    Credentials,
    HostNotAllowed,
    NonStandardPort,
}

impl ImageUrlError {
    pub open spec fn spec_message(self) -> Seq<char> {
        match self {
            ImageUrlError::InvalidUrl(i) => "invalid WNACG image URL: "@ + i@,
            ImageUrlError::BadScheme => "WNACG image URL has an unsupported scheme"@,
            ImageUrlError::Credentials => "WNACG image URL must not contain user credentials"@,
            ImageUrlError::HostNotAllowed => "WNACG image URL host is not an approved image CDN"@,
            ImageUrlError::NonStandardPort => "WNACG image URL uses a non-standard port"@,
        }
    }

    pub fn message(&self) -> (m: String)
        ensures
            m@ == self.spec_message(),
    {
        match self {
            ImageUrlError::InvalidUrl(i) => crate::text::lit_then(
                "invalid WNACG image URL: ",
                chars_of(i.as_str()).as_slice(),
            ),
            ImageUrlError::BadScheme => String::from_str("WNACG image URL has an unsupported scheme"),
            ImageUrlError::Credentials => String::from_str(
                "WNACG image URL must not contain user credentials",
            ),
            ImageUrlError::HostNotAllowed => String::from_str(
                "WNACG image URL host is not an approved image CDN",
            ),
            ImageUrlError::NonStandardPort => String::from_str(
                "WNACG image URL uses a non-standard port",
            ),
        }
    }
}

/// `(?i)^img[0-9]+\.qy0\.ru$`.
pub open spec fn is_cdn_host(h: Seq<char>) -> bool {
    let d = run_end(h, 3, Class::AsciiDigit);
    ci_lit_at(h, 0, "img"@) && d > 3 && ci_lit_at(h, d, ".qy0.ru"@) && d + 7 == h.len()
}

/// The port of a scheme: 80 for `http`, 443 otherwise.
pub open spec fn standard_port(scheme: Seq<char>) -> u16 {
    if scheme == "http"@ {
        80
    } else {
        443
    }
}

/// `Ok(serialization)` for an image URL on the public image CDN, else which
/// rule refused it (the first in the order: parse, scheme, credentials,
/// host, port).
pub open spec fn spec_image_url(raw: Seq<char>) -> Result<Seq<char>, ImageUrlError> {
    match url_parse(raw) {
        None => Err(ImageUrlError::InvalidUrl(arbitrary())),
        Some(v) => if !(v.scheme == "http"@ || v.scheme == "https"@) {
            Err(ImageUrlError::BadScheme)
        } else if v.username.len() != 0 || v.password is Some {
            Err(ImageUrlError::Credentials)
        } else if !is_cdn_host(
            match v.host {
                Some(h) => h,
                None => Seq::empty(),
            },
        ) {
            Err(ImageUrlError::HostNotAllowed)
        } else {
            match v.port {
                Some(p) => if p != standard_port(v.scheme) {
                    Err(ImageUrlError::NonStandardPort)
                } else {
                    Ok(v.serialization)
                },
                None => Ok(v.serialization),
            }
        },
    }
}

fn is_cdn_host_exec(h: &[char]) -> (b: bool)
    ensures
        b == is_cdn_host(h@),
{
    let img = chars_of("img");
    let tail = chars_of(".qy0.ru");
    proof {
        reveal_strlit("img");
        reveal_strlit(".qy0.ru");
    }
    if !ci_lit_at_exec(h, 0, img.as_slice()) {
        return false;
    }
    let d = run_end_exec(h, 3, Class::AsciiDigit);
    d > 3 && ci_lit_at_exec(h, d, tail.as_slice()) && h.len() - d == 7
}

/// The image URL, parsed, when it passes the allowlist.
pub fn validate_image_parsed(raw: &str) -> (r: Result<crate::weburl::ParsedUrl, ImageUrlError>)
    ensures
        match (r, spec_image_url(raw@)) {
            (Ok(u), Ok(t)) => url_parse(raw@) == Some(u@) && u@.serialization == t,
            (Err(ImageUrlError::InvalidUrl(i)), Err(ImageUrlError::InvalidUrl(_))) => i@ == raw@,
            (Err(e), Err(f)) => e == f && !(e is InvalidUrl),
            _ => false,
        },
{
    let url = match parse_url(raw) {
        Some(u) => u,
        None => return Err(ImageUrlError::InvalidUrl(raw.to_owned())),
    };
    let scheme = chars_of(url.scheme.as_str());
    let is_http = same(scheme.as_slice(), "http");
    if !(is_http || same(scheme.as_slice(), "https")) {
        return Err(ImageUrlError::BadScheme);
    }
    if chars_of(url.username.as_str()).len() != 0 || url.password.is_some() {
        return Err(ImageUrlError::Credentials);
    }
    let host = match &url.host {
        Some(h) => chars_of(h.as_str()),
        None => Vec::new(),
    };
    if !is_cdn_host_exec(host.as_slice()) {
        return Err(ImageUrlError::HostNotAllowed);
    }
    let standard: u16 = if is_http {
        80
    } else {
        443
    };
    match url.port {
        Some(p) => {
            if p != standard {
                return Err(ImageUrlError::NonStandardPort);
            }
        },
        None => {},
    }
    Ok(url)
}

/// Accepts only image URLs on the public WNACG image CDN (`imgN.qy0.ru`),
/// over `http` or `https`, without credentials and on the scheme's port;
/// returns the URL's serialization.
pub fn validate_image_url(raw: &str) -> (r: Result<String, ImageUrlError>)
    ensures
        match (r, spec_image_url(raw@)) {
            (Ok(s), Ok(t)) => s@ == t,
            (Err(ImageUrlError::InvalidUrl(i)), Err(ImageUrlError::InvalidUrl(_))) => i@ == raw@,
            (Err(e), Err(f)) => e == f && !(e is InvalidUrl),
            _ => false,
        },
{
    match validate_image_parsed(raw) {
        Ok(u) => Ok(u.serialization),
        Err(e) => Err(e),
    }
}

} // verus!
