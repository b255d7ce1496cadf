//! The pornavhd command's settings and output name.

use crate::naming::with_ext;
use crate::text::{chars_of, last_index_of, last_index_of_exec, slice_vec, starts_with, starts_with_exec};
use crate::pornavhd::url::{default_filename, ensure_mp4};
use vstd::prelude::*;

verus! {

/// The settings of the pornavhd command.
#[derive(Debug)]
pub struct Args {
    /// Post URL (`.../YYYY/MM/DD/slug/`).
    pub url: String,
    /// Destination remote path.
    pub remote: String,
    /// Output basename (default: `<slug>.mp4`).
    pub name: Option<String>,
    pub keep_temp: bool,
    /// Resolve the HLS playlist only.
    pub dry_run: bool,
    pub rclone: String,
    pub yt_dlp: String,
    /// yt-dlp `-f` format.
    pub format: String,
    /// yt-dlp `--concurrent-fragments`.
    pub concurrent_fragments: u32,
    pub workdir: Option<std::path::PathBuf>,
}

/// How yt-dlp is run for HLS downloads.
#[derive(Debug)]
pub struct YtDlp {
    pub bin: String,
    pub format: String,
    pub concurrent_fragments: u32,
}

impl Default for YtDlp {
    fn default() -> (r: Self)
        ensures
            r.bin@ == "yt-dlp"@,
            r.format@ == "bv*+ba/b"@,
            r.concurrent_fragments == 8,
    {
        YtDlp {
            bin: String::from_str("yt-dlp"),
            format: String::from_str("bv*+ba/b"),
            concurrent_fragments: 8,
        }
    }
}

/// The output file name: the requested name, else `<slug>.mp4`, as an
/// `.mp4` either way.
pub fn output_name(name: Option<&str>, slug: &str) -> (r: String)
    ensures
        match name {
            Some(n) => r@ == with_ext(n@, ".mp4"@),
            None => r@ == with_ext(with_ext(slug@, ".mp4"@), ".mp4"@),
        },
{
    match name {
        Some(n) => ensure_mp4(n),
        None => {
            let d = default_filename(slug);
            ensure_mp4(d.as_str())
        },
    }
}

/// `Path::file_stem` of a file name: before its last `.`, unless that dot
/// starts the name; `..` stays as it is.
pub open spec fn file_stem(n: Seq<char>) -> Seq<char> {
    if n == ".."@ {
        n
    } else {
        match last_index_of(n, '.') {
            Some(i) => if i == 0 {
                n
            } else {
                n.take(i as int)
            },
            None => n,
        }
    }
}

/// A directory entry that may be yt-dlp's output for `want`: the name
/// itself, or any name starting with its stem.
pub open spec fn is_output_candidate(name: Seq<char>, want: Seq<char>) -> bool {
    name == want || starts_with(name, file_stem(want))
}

/// Which of the files left in the download directory (name and size, in
/// directory order) is yt-dlp's output: the largest candidate, the last of
/// equally large ones; `None` when there is no candidate.
pub fn pick_output(want_name: &str, files: &Vec<(String, u64)>) -> (r: Option<usize>)
    ensures
        match r {
            Some(i) => i < files.len() && is_output_candidate(files@[i as int].0@, want_name@) && (
            forall|j: int|
                0 <= j < files.len() && is_output_candidate(#[trigger] files@[j].0@, want_name@)
                    ==> files@[j].1 < files@[i as int].1 || (files@[j].1 == files@[i as int].1 && j
                    <= i)),
            None => forall|j: int|
                0 <= j < files.len() ==> !is_output_candidate(#[trigger] files@[j].0@, want_name@),
        },
{
    let want = chars_of(want_name);
    let dots = chars_of("..");
    let is_dotdot = want.len() == 2 && starts_with_exec(want.as_slice(), dots.as_slice());
    assert(is_dotdot == (want@ == ".."@)) by {
        reveal_strlit("..");
        if want@.len() == 2 && starts_with(want@, dots@) {
            assert(want@.take(2) =~= want@);
        }
    }
    let stem = if is_dotdot {
        slice_vec(want.as_slice(), 0, want.len())
    } else {
        match last_index_of_exec(want.as_slice(), '.') {
            Some(i) => if i == 0 {
                slice_vec(want.as_slice(), 0, want.len())
            } else {
                slice_vec(want.as_slice(), 0, i)
            },
            None => slice_vec(want.as_slice(), 0, want.len()),
        }
    };
    assert(stem@ =~= file_stem(want_name@));
    let mut best: Option<usize> = None;
    let mut i: usize = 0;
    while i < files.len()
        invariant
            i <= files.len(),
            want@ == want_name@,
            stem@ == file_stem(want_name@),
            match best {
                Some(b) => b < i && is_output_candidate(files@[b as int].0@, want_name@) && (forall|
                    j: int,
                |
                    0 <= j < i && is_output_candidate(#[trigger] files@[j].0@, want_name@) ==> files@[j].1
                        < files@[b as int].1 || (files@[j].1 == files@[b as int].1 && j <= b)),
                None => forall|j: int|
                    0 <= j < i ==> !is_output_candidate(#[trigger] files@[j].0@, want_name@),
            },
        decreases files.len() - i,
    {
        let name = chars_of(files[i].0.as_str());
        let same = name.len() == want.len() && starts_with_exec(name.as_slice(), want.as_slice());
        assert(same == (name@ == want@)) by {
            if name@.len() == want@.len() && starts_with(name@, want@) {
                assert(name@.take(want@.len() as int) =~= name@);
            }
        }
        if same || starts_with_exec(name.as_slice(), stem.as_slice()) {
            match best {
                Some(b) => {
                    if files[i].1 >= files[b].1 {
                        best = Some(i);
                    }
                },
                None => {
                    best = Some(i);
                },
            }
        }
        i = i + 1;
    }
    best
}

} // verus!
