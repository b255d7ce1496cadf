//! URLs as the `url` crate parses them, held as plain values.

use vstd::prelude::*;

verus! {

/// The parts of a parsed URL that the site rules read.
pub struct ParsedUrl {
    /// The whole serialization (`Url::as_str`).
    pub serialization: String,
    pub scheme: String,
    pub username: String,
    pub password: Option<String>,
    /// `Url::host_str`.
    pub host: Option<String>,
    /// `Url::port`: an explicit port that is not the scheme's default.
    pub port: Option<u16>,
    pub path: String,
    /// `Url::path_segments`: `None` for a URL that cannot be a base.
    pub segments: Option<Vec<String>>,
    /// The serialization up to the end of the path, without query and
    /// fragment (`&url[..Position::AfterPath]`).
    pub before_query: String,
}

pub struct UrlView {
    pub serialization: Seq<char>,
    pub scheme: Seq<char>,
    pub username: Seq<char>,
    pub password: Option<Seq<char>>,
    pub host: Option<Seq<char>>,
    pub port: Option<u16>,
    pub path: Seq<char>,
    pub segments: Option<Seq<Seq<char>>>,
    pub before_query: Seq<char>,
}

pub open spec fn opt_view(o: Option<String>) -> Option<Seq<char>> {
    match o {
        Some(s) => Some(s@),
        None => None,
    }
}

pub open spec fn seg_view(o: Option<Vec<String>>) -> Option<Seq<Seq<char>>> {
    match o {
        Some(v) => Some(v@.map_values(|s: String| s@)),
        None => None,
    }
}

impl View for ParsedUrl {
    type V = UrlView;

    open spec fn view(&self) -> UrlView {
        UrlView {
            serialization: self.serialization@,
            scheme: self.scheme@,
            username: self.username@,
            password: opt_view(self.password),
            host: opt_view(self.host),
            port: self.port,
            path: self.path@,
            segments: seg_view(self.segments),
            before_query: self.before_query@,
        }
    }
}

/// What `url::Url::parse` makes of a string (WHATWG URL parsing), or `None`
/// where it reports an error.
pub uninterp spec fn url_parse(input: Seq<char>) -> Option<UrlView>;

/// What `url::Url::join` makes of a relative reference against a base URL
/// (given by its serialization), as a serialization; `None` where either the
/// base does not parse or the join reports an error.
pub uninterp spec fn url_join(base: Seq<char>, input: Seq<char>) -> Option<Seq<char>>;

/// `url::Url::parse`, with the parsed URL read out through its accessors.
/// The contract only ties the result to the input by the name `url_parse`:
/// nothing is stated of URL parsing itself.
#[verifier::external_body]
pub fn parse_url(input: &str) -> (r: Option<ParsedUrl>)
    ensures
        match r {
            Some(u) => url_parse(input@) == Some(u@),
            None => url_parse(input@) is None,
        },
{
    url::Url::parse(input).ok().map(|u| ParsedUrl {
        serialization: u.as_str().to_string(),
        scheme: u.scheme().to_string(),
        username: u.username().to_string(),
        password: u.password().map(String::from),
        host: u.host_str().map(String::from),
        port: u.port(),
        path: u.path().to_string(),
        segments: u.path_segments().map(|s| s.map(String::from).collect()),
        before_query: u[..url::Position::AfterPath].to_string(),
    })
}

/// `url::Url::join` on the URL that `base` serializes, returning the joined
/// URL's serialization. Only the name `url_join` ties the result to the
/// arguments.
#[verifier::external_body]
pub fn join_url(base: &str, input: &str) -> (r: Option<String>)
    ensures
        opt_view(r) == url_join(base@, input@),
{
    url::Url::parse(base).ok()?.join(input).ok().map(|u| u.to_string())
}

} // verus!
