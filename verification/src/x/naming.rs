//! X / Twitter: destination and file names.

use crate::naming::{ensure_ext, with_ext, with_ext_exec};
use crate::text::{
    chars_of, concat, dec_digits, dec_string, ends_with, ends_with_exec, has_char_exec, is_char,
    slice_vec, string_of, trim, trim_end_by, trim_end_char, trim_exec,
};
use crate::x::url::StatusRef;
use vstd::prelude::*;

verus! {

/// The destination remote: trimmed, without trailing `/`, and with `mega:`
/// in front when it names no remote; `None` when nothing is left.
pub open spec fn spec_normalize_remote(s: Seq<char>) -> Option<Seq<char>> {
    let t = trim_end_by(trim(s), is_char('/'));
    if t.len() == 0 {
        None
    } else if t.contains(':') {
        Some(t)
    } else {
        Some("mega:"@ + t)
    }
}

/// Why a destination remote was refused.
#[derive(Debug, Clone, Copy, PartialEq, Eq)]
pub enum RemoteError {
    /// Nothing but blanks and slashes.
    Empty,
}

impl RemoteError {
    pub fn message(&self) -> (m: String)
        ensures
            m@ == "--remote is empty"@,
    {
        String::from_str("--remote is empty")
    }
}

/// `video/r18/0` becomes `mega:video/r18/0`; `mega:a/b/` becomes `mega:a/b`.
pub fn normalize_remote(s: &str) -> (r: Result<String, RemoteError>)
    ensures
        match r {
            Ok(t) => spec_normalize_remote(s@) == Some(t@),
            Err(_) => spec_normalize_remote(s@) is None,
        },
{
    let v = chars_of(s);
    let t0 = trim_exec(v.as_slice());
    let t = trim_end_char(t0.as_slice(), '/');
    if t.len() == 0 {
        return Err(RemoteError::Empty);
    }
    if has_char_exec(t.as_slice(), ':') {
        Ok(string_of(t.as_slice()))
    } else {
        let p = chars_of("mega:");
        Ok(string_of(concat(p.as_slice(), t.as_slice()).as_slice()))
    }
}

/// `{user}_{id}.mp4`, or `{id}.mp4` without a screen name.
pub open spec fn spec_default_basename(id: Seq<char>, user: Option<Seq<char>>) -> Seq<char> {
    match user {
        Some(u) => u + "_"@ + id + ".mp4"@,
        None => id + ".mp4"@,
    }
}

pub fn default_basename(status: &StatusRef) -> (r: String)
    ensures
        r@ == spec_default_basename(status.id@, crate::weburl::opt_view(status.user)),
{
    let id = chars_of(status.id.as_str());
    let ext = chars_of(".mp4");
    let tail = concat(id.as_slice(), ext.as_slice());
    match &status.user {
        Some(u) => {
            let uv = chars_of(u.as_str());
            let sep = chars_of("_");
            let head = concat(uv.as_slice(), sep.as_slice());
            let r = concat(head.as_slice(), tail.as_slice());
            assert(r@ =~= u@ + "_"@ + status.id@ + ".mp4"@);
            string_of(r.as_slice())
        },
        None => string_of(tail.as_slice()),
    }
}

/// `name`, with `.mp4` appended unless it already ends so (any ASCII case).
pub fn ensure_mp4(name: &str) -> (r: String)
    ensures
        r@ == with_ext(name@, ".mp4"@),
{
    ensure_ext(name, ".mp4")
}

/// `s.trim_end_matches(suf)`: every trailing copy of `suf` removed.
pub open spec fn strip_suffix_all(s: Seq<char>, suf: Seq<char>) -> Seq<char>
    decreases s.len(),
{
    if suf.len() > 0 && ends_with(s, suf) {
        strip_suffix_all(s.subrange(0, s.len() - suf.len()), suf)
    } else {
        s
    }
}

fn strip_suffix_all_exec(s: &[char], suf: &[char]) -> (r: Vec<char>)
    ensures
        r@ == strip_suffix_all(s@, suf@),
{
    let mut hi: usize = s.len();
    if suf.len() == 0 {
        return slice_vec(s, 0, hi);
    }
    let mut cur = slice_vec(s, 0, hi);
    assert(cur@ =~= s@);
    while ends_with_exec(cur.as_slice(), suf)
        invariant
            hi <= s.len(),
            suf@.len() > 0,
            cur@ == s@.subrange(0, hi as int),
            strip_suffix_all(cur@, suf@) == strip_suffix_all(s@, suf@),
        decreases hi,
    {
        hi = hi - suf.len();
        let next = slice_vec(s, 0, hi);
        assert(next@ =~= cur@.subrange(0, cur@.len() - suf@.len()));
        cur = next;
    }
    cur
}

/// The file name of one downloaded video: the base name as an `.mp4` when
/// it is the only one, else `{stem}_{k}.mp4` with `k` the larger of the
/// video's media index and its place among the selected ones.
pub open spec fn spec_video_file_name(
    base: Seq<char>,
    count: nat,
    media_index: nat,
    place: nat,
) -> Seq<char> {
    if count == 1 {
        with_ext(base, ".mp4"@)
    } else {
        let k = if media_index >= place {
            media_index
        } else {
            place
        };
        strip_suffix_all(base, ".mp4"@) + "_"@ + dec_digits(k) + ".mp4"@
    }
}

pub fn video_file_name(base: &str, count: usize, media_index: usize, place: usize) -> (r: String)
    ensures
        r@ == spec_video_file_name(base@, count as nat, media_index as nat, place as nat),
{
    let b = chars_of(base);
    if count == 1 {
        return string_of(with_ext_exec(b.as_slice(), ".mp4").as_slice());
    }
    let ext = chars_of(".mp4");
    let stem = strip_suffix_all_exec(b.as_slice(), ext.as_slice());
    let k: usize = if media_index >= place {
        media_index
    } else {
        place
    };
    let digits = dec_string(k as u64);
    let sep = chars_of("_");
    let a = concat(stem.as_slice(), sep.as_slice());
    let c = concat(a.as_slice(), digits.as_slice());
    let r = concat(c.as_slice(), ext.as_slice());
    string_of(r.as_slice())
}

} // verus!
