//! YouTube: accepted hosts, MP3 output names, and the command's settings.

use crate::naming::{with_ext, with_ext_exec};
use crate::text::{chars_of, has_char_exec, string_of};
use crate::weburl::{parse_url, url_parse};
use vstd::prelude::*;

verus! {

/// The settings of the YouTube command.
#[derive(Debug)]
pub struct Args {
    /// Public YouTube video URL (playlists are ignored).
    pub url: String,
    /// Destination remote path.
    pub remote: String,
    /// Output basename (default: YouTube title and video id).
    pub name: Option<String>,
    pub dry_run: bool,
    pub keep_temp: bool,
    pub rclone: String,
    pub yt_dlp: String,
    /// yt-dlp format selector.
    pub format: String,
    /// JavaScript runtime handed to yt-dlp.
    pub js_runtime: String,
    pub workdir: Option<std::path::PathBuf>,
}

/// How yt-dlp is run for MP3 downloads.
#[derive(Debug)]
pub struct YtDlp {
    pub bin: String,
    pub format: String,
    pub js_runtime: String,
}

/// The hosts that serve YouTube videos.
pub open spec fn is_youtube_host(h: Seq<char>) -> bool {
    h == "youtube.com"@ || h == "www.youtube.com"@ || h == "m.youtube.com"@ || h == "youtu.be"@
}

pub open spec fn spec_is_youtube_url(value: Seq<char>) -> bool {
    match url_parse(value) {
        Some(v) => match v.host {
            Some(h) => is_youtube_host(h),
            None => false,
        },
        None => false,
    }
}

fn same(a: &str, lit: &str) -> (b: bool)
    ensures
        b == (a@ == lit@),
{
    let x = a.to_owned();
    let y = lit.to_owned();
    x == y
}

/// A URL is a YouTube URL exactly when it parses and its host is one of
/// `youtube.com`, `www.youtube.com`, `m.youtube.com` and `youtu.be`.
pub proof fn lemma_youtube_hosts(value: Seq<char>)
    ensures
        spec_is_youtube_url(value) <==> (url_parse(value) matches Some(v) && (v.host matches Some(h)
            && (h == "youtube.com"@ || h == "www.youtube.com"@ || h == "m.youtube.com"@ || h
            == "youtu.be"@))),
{
}

/// A URL on `youtube.com`, `www.youtube.com`, `m.youtube.com` or `youtu.be`.
pub fn is_youtube_url(value: &str) -> (b: bool)
    ensures
        b == spec_is_youtube_url(value@),
        b <==> (url_parse(value@) matches Some(v) && (v.host matches Some(h) && (h == "youtube.com"@
            || h == "www.youtube.com"@ || h == "m.youtube.com"@ || h == "youtu.be"@))),
{
    let url = match parse_url(value) {
        Some(u) => u,
        None => return false,
    };
    match &url.host {
        Some(h) => same(h.as_str(), "youtube.com") || same(h.as_str(), "www.youtube.com") || same(
            h.as_str(),
            "m.youtube.com",
        ) || same(h.as_str(), "youtu.be"),
        None => false,
    }
}

#[derive(Debug, Clone, Copy, PartialEq, Eq, Structural)]
pub enum Mp3NameError {
    NotBasename,
}

impl Mp3NameError {
    pub fn message(&self) -> (m: String)
        ensures
            m@ == "--name must be a non-empty basename, not a path"@,
    {
        String::from_str("--name must be a non-empty basename, not a path")
    }
}

/// A name that is its own final path component (`Path::file_name` on Unix):
/// not empty, no `/`, and not `.` or `..`.
pub open spec fn is_plain_file_name(n: Seq<char>) -> bool {
    n.len() > 0 && !n.contains('/') && n != "."@ && n != ".."@
}

/// The requested name as an `.mp3` file name, refused when it is a path.
pub open spec fn spec_ensure_mp3(name: Seq<char>) -> Option<Seq<char>> {
    if is_plain_file_name(name) {
        Some(with_ext(name, ".mp3"@))
    } else {
        None
    }
}

pub fn ensure_mp3(name: &str) -> (r: Result<String, Mp3NameError>)
    ensures
        match r {
            Ok(n) => spec_ensure_mp3(name@) == Some(n@),
            Err(_) => spec_ensure_mp3(name@) is None,
        },
{
    let v = chars_of(name);
    if v.len() == 0 || has_char_exec(v.as_slice(), '/') || same(name, ".") || same(name, "..") {
        return Err(Mp3NameError::NotBasename);
    }
    Ok(string_of(with_ext_exec(v.as_slice(), ".mp3").as_slice()))
}

/// The yt-dlp output template: the requested name as an `.mp3`, else the
/// video title (at most 120 bytes) and id.
pub fn output_template(name: Option<&str>) -> (r: Result<String, Mp3NameError>)
    ensures
        match name {
            Some(n) => match r {
                Ok(t) => spec_ensure_mp3(n@) == Some(t@),
                Err(_) => spec_ensure_mp3(n@) is None,
            },
            None => r matches Ok(t) && t@ == "%(title).120B [%(id)s].mp3"@,
        },
{
    match name {
        Some(n) => ensure_mp3(n),
        None => Ok(String::from_str("%(title).120B [%(id)s].mp3")),
    }
}

#[derive(Debug, Clone, Copy, PartialEq, Eq, Structural)]
pub enum Mp3OutputError {
    /// yt-dlp left no MP3.
    NoOutput,
    /// yt-dlp left this many MP3 files.
    Several(usize),
}

impl Mp3OutputError {
    pub open spec fn spec_message(self) -> Seq<char> {
        match self {
            Mp3OutputError::NoOutput => "yt-dlp finished but no MP3 output was found"@,
            Mp3OutputError::Several(n) => "yt-dlp produced "@ + crate::text::dec_digits(n as nat)
                + " MP3 files; expected one"@,
        }
    }

    pub fn message(&self) -> (m: String)
        ensures
            m@ == self.spec_message(),
    {
        match self {
            Mp3OutputError::NoOutput => String::from_str(
                "yt-dlp finished but no MP3 output was found",
            ),
            Mp3OutputError::Several(n) => {
                let a = chars_of("yt-dlp produced ");
                let b = crate::text::dec_string(*n as u64);
                let c = chars_of(" MP3 files; expected one");
                let ab = crate::text::concat(a.as_slice(), b.as_slice());
                string_of(crate::text::concat(ab.as_slice(), c.as_slice()).as_slice())
            },
        }
    }
}

/// The one MP3 that a download left, refused when there is none or more
/// than one.
pub fn single_output<T>(matches: Vec<T>) -> (r: Result<T, Mp3OutputError>)
    ensures
        matches.len() == 1 ==> (r matches Ok(t) && t == matches@[0]),
        matches.len() == 0 ==> r == Err::<T, Mp3OutputError>(Mp3OutputError::NoOutput),
        matches.len() > 1 ==> r == Err::<T, Mp3OutputError>(
            Mp3OutputError::Several(matches.len()),
        ),
{
    let n = matches.len();
    if n == 1 {
        let mut m = matches;
        Ok(m.remove(0))
    } else if n == 0 {
        Err(Mp3OutputError::NoOutput)
    } else {
        Err(Mp3OutputError::Several(n))
    }
}

} // verus!
