//! rclone settings, the command each operation runs, and how its result is
//! read back. Running the commands is the caller's effect.

use crate::storage::error::{StorageError, StorageResult};
use crate::storage::op::{Op, Outcome, RemoteEntry};
use crate::storage::path::{rclone_text, RemotePath};
use crate::text::{
    chars_of, concat, dec_digits, dec_string, i32_text, int_text, is_char, is_ws, is_ws_exec,
    lit_then, parse_u64, parse_u64_exec, slice_vec, split_by, split_exec, string_of, trim, trim_exec,
    views, Sep,
};
use vstd::prelude::*;

verus! {

/// How rclone is run.
#[derive(Debug, Clone)]
pub struct Rclone {
    pub bin: String,
    pub checkers: u32,
    pub transfers: u32,
    pub progress: bool,
}

impl Default for Rclone {
    fn default() -> (r: Self)
        ensures
            r.bin@ == "rclone"@,
            r.checkers == 4,
            r.transfers == 2,
            r.progress,
    {
        Rclone { bin: "rclone".to_owned(), checkers: 4, transfers: 2, progress: true }
    }
}

impl Rclone {
    pub fn new(bin: &str) -> (r: Self)
        ensures
            r.bin@ == bin@,
            r.checkers == 4,
            r.transfers == 2,
            r.progress,
    {
        Rclone { bin: bin.to_owned(), checkers: 4, transfers: 2, progress: true }
    }

    pub fn with_progress(self, on: bool) -> (r: Self)
        ensures
            r.bin == self.bin,
            r.checkers == self.checkers,
            r.transfers == self.transfers,
            r.progress == on,
    {
        Rclone { progress: on, ..self }
    }
}

/// The message of a failed rclone call: its trimmed standard error, or
/// `exit {code}` when that is empty.
pub open spec fn stderr_or_text(code: int, stderr: Seq<char>) -> Seq<char> {
    if trim(stderr).len() == 0 {
        "exit "@ + int_text(code)
    } else {
        trim(stderr)
    }
}

pub fn stderr_or(code: i32, stderr: &str) -> (r: String)
    ensures
        r@ == stderr_or_text(code as int, stderr@),
{
    let v = chars_of(stderr);
    let t = trim_exec(v.as_slice());
    if t.len() == 0 {
        let d = i32_text(code);
        lit_then("exit ", d.as_slice())
    } else {
        string_of(t.as_slice())
    }
}

/// Where the run of non-blank characters from `i` ends.
pub open spec fn field_end(s: Seq<char>, i: int) -> int
    decreases s.len() - i,
{
    if 0 <= i < s.len() && !is_ws(s[i]) {
        field_end(s, i + 1)
    } else {
        i
    }
}

/// Where the run of blanks from `i` ends.
pub open spec fn blanks_end(s: Seq<char>, i: int) -> int
    decreases s.len() - i,
{
    if 0 <= i < s.len() && is_ws(s[i]) {
        blanks_end(s, i + 1)
    } else {
        i
    }
}

/// One line of `rclone lsl`: `SIZE DATE TIME NAME`, blanks around the line
/// trimmed. The name is the rest of the line after the time field and the
/// one blank that follows it, kept as listed (it may hold spaces).
pub open spec fn lsl_entry(line: Seq<char>) -> Option<(Seq<char>, u64)> {
    let t = trim(line);
    let a = field_end(t, 0);
    let b = blanks_end(t, a);
    let c = field_end(t, b);
    let d = blanks_end(t, c);
    let e = field_end(t, d);
    if t.len() == 0 || c == b || e == d || e + 1 >= t.len() {
        None
    } else {
        match parse_u64(t.take(a)) {
            Some(size) => Some((t.subrange(e + 1, t.len() as int), size)),
            None => None,
        }
    }
}

/// The entries of an `rclone lsl` listing, in order; lines that do not parse
/// are skipped.
pub open spec fn lsl_entries(text: Seq<char>) -> Seq<(Seq<char>, u64)> {
    split_by(text, is_char('\n')).filter_map(|line: Seq<char>| lsl_entry(line))
}

pub open spec fn entry_views(v: Seq<RemoteEntry>) -> Seq<(Seq<char>, u64)> {
    v.map_values(|e: RemoteEntry| (e.name@, e.size))
}

fn field_end_exec(s: &[char], i: usize) -> (r: usize)
    requires
        i <= s.len(),
    ensures
        r == field_end(s@, i as int),
        i <= r <= s.len(),
{
    let mut j = i;
    while j < s.len() && !is_ws_exec(s[j])
        invariant
            i <= j <= s.len(),
            field_end(s@, i as int) == field_end(s@, j as int),
        decreases s.len() - j,
    {
        j = j + 1;
    }
    j
}

fn blanks_end_exec(s: &[char], i: usize) -> (r: usize)
    requires
        i <= s.len(),
    ensures
        r == blanks_end(s@, i as int),
        i <= r <= s.len(),
{
    let mut j = i;
    while j < s.len() && is_ws_exec(s[j])
        invariant
            i <= j <= s.len(),
            blanks_end(s@, i as int) == blanks_end(s@, j as int),
        decreases s.len() - j,
    {
        j = j + 1;
    }
    j
}

fn lsl_line(line: &[char]) -> (r: Option<RemoteEntry>)
    ensures
        match r {
            Some(e) => lsl_entry(line@) == Some((e.name@, e.size)),
            None => lsl_entry(line@) is None,
        },
{
    let t = trim_exec(line);
    let a = field_end_exec(t.as_slice(), 0);
    let b = blanks_end_exec(t.as_slice(), a);
    let c = field_end_exec(t.as_slice(), b);
    let d = blanks_end_exec(t.as_slice(), c);
    let e = field_end_exec(t.as_slice(), d);
    if t.len() == 0 || c == b || e == d || e >= t.len() - 1 {
        return None;
    }
    let size_text = slice_vec(t.as_slice(), 0, a);
    let size = match parse_u64_exec(size_text.as_slice()) {
        Some(n) => n,
        None => {
            return None;
        },
    };
    let name = slice_vec(t.as_slice(), e + 1, t.len());
    Some(RemoteEntry { name: string_of(name.as_slice()), size })
}

/// Parses `rclone lsl` output.
pub fn parse_lsl(text: &str) -> (r: Vec<RemoteEntry>)
    ensures
        entry_views(r@) == lsl_entries(text@),
{
    let t = chars_of(text);
    let lines = split_exec(t.as_slice(), Sep::Char('\n'));
    let ghost lv = views(lines@);
    let ghost f = |line: Seq<char>| lsl_entry(line);
    let mut out: Vec<RemoteEntry> = Vec::new();
    let mut i: usize = 0;
    while i < lines.len()
        invariant
            i <= lines.len(),
            lv == views(lines@),
            f == (|line: Seq<char>| lsl_entry(line)),
            entry_views(out@) =~= lv.take(i as int).filter_map(f),
        decreases lines.len() - i,
    {
        assert(lv.take(i + 1).drop_last() =~= lv.take(i as int));
        assert(lv.take(i + 1).last() == lines@[i as int]@);
        match lsl_line(lines[i].as_slice()) {
            Some(e) => {
                let ghost before = out@;
                out.push(e);
                assert(entry_views(out@) =~= entry_views(before) + seq![(e.name@, e.size)]);
            },
            None => {},
        }
        i = i + 1;
    }
    assert(lv.take(lines.len() as int) =~= lv);
    out
}

/// The size of the first listed entry with this name.
pub open spec fn first_size(entries: Seq<(Seq<char>, u64)>, name: Seq<char>) -> Option<u64>
    decreases entries.len(),
{
    if entries.len() == 0 {
        None
    } else if entries[0].0 == name {
        Some(entries[0].1)
    } else {
        first_size(entries.drop_first(), name)
    }
}

fn find_size(entries: &Vec<RemoteEntry>, name: &str) -> (r: Option<u64>)
    ensures
        r == first_size(entry_views(entries@), name@),
{
    let ghost ev = entry_views(entries@);
    assert(ev.skip(0) =~= ev);
    let mut i: usize = 0;
    while i < entries.len()
        invariant
            i <= entries.len(),
            ev == entry_views(entries@),
            first_size(ev, name@) == first_size(ev.skip(i as int), name@),
        decreases entries.len() - i,
    {
        assert(ev.skip(i as int)[0] == ev[i as int]);
        assert(ev.skip(i as int).drop_first() =~= ev.skip(i + 1));
        if entries[i].name == name.to_owned() {
            return Some(entries[i].size);
        }
        i = i + 1;
    }
    None
}

/// The rclone subcommand and arguments of an operation that is run with its
/// output captured; `UploadFile` is not such an operation.
pub open spec fn capture_spec(op: Op) -> Option<(Seq<char>, Seq<Seq<char>>)> {
    match op {
        Op::EnsureReachable { remote_root } => Some(("lsd"@, seq![remote_root@.remote.push(':')])),
        Op::MkDir { dir } => Some(("mkdir"@, seq![rclone_text(dir@)])),
        Op::UploadFile { .. } => None,
        Op::DeleteFile { path } => Some(("deletefile"@, seq![rclone_text(path@)])),
        Op::DeleteDir { dir } => Some(("rmdir"@, seq![rclone_text(dir@)])),
        Op::PurgeDir { dir } => Some(("purge"@, seq![rclone_text(dir@)])),
        Op::MovePath { from, to } => Some(("moveto"@, seq![rclone_text(from@), rclone_text(to@)])),
        Op::ListFiles { dir } => Some(("lsl"@, seq![rclone_text(dir@)])),
        Op::FileSize { dir, .. } => Some(("lsl"@, seq![rclone_text(dir@)])),
    }
}

pub open spec fn string_views(v: Seq<String>) -> Seq<Seq<char>> {
    v.map_values(|s: String| s@)
}

fn one(s: String) -> (r: Vec<String>)
    ensures
        string_views(r@) == seq![s@],
{
    let mut v = Vec::new();
    v.push(s);
    assert(string_views(v@) =~= seq![s@]);
    v
}

/// The subcommand and arguments to run for an operation whose output is
/// captured, or `None` for an upload.
pub fn capture_call(op: &Op) -> (r: Option<(&'static str, Vec<String>)>)
    ensures
        match r {
            Some((sub, args)) => capture_spec(*op) == Some((sub@, string_views(args@))),
            None => capture_spec(*op) is None,
        },
{
    match op {
        Op::EnsureReachable { remote_root } => Some(("lsd", one(remote_root.remote_root()))),
        Op::MkDir { dir } => Some(("mkdir", one(dir.as_rclone()))),
        Op::UploadFile { .. } => None,
        Op::DeleteFile { path } => Some(("deletefile", one(path.as_rclone()))),
        Op::DeleteDir { dir } => Some(("rmdir", one(dir.as_rclone()))),
        Op::PurgeDir { dir } => Some(("purge", one(dir.as_rclone()))),
        Op::MovePath { from, to } => {
            let mut v = Vec::new();
            let a = from.as_rclone();
            let b = to.as_rclone();
            v.push(a);
            v.push(b);
            assert(string_views(v@) =~= seq![a@, b@]);
            Some(("moveto", v))
        },
        Op::ListFiles { dir } => Some(("lsl", one(dir.as_rclone()))),
        Op::FileSize { dir, .. } => Some(("lsl", one(dir.as_rclone()))),
    }
}

/// What a captured run yields: a failing exit code is an error for every
/// operation but `MkDir`, which is run softly.
pub open spec fn capture_result_ok(op: Op, code: int, stdout: Seq<char>, r: StorageResult<Outcome>) -> bool {
    match op {
        Op::MkDir { .. } => r matches Ok(Outcome::Unit),
        Op::ListFiles { .. } => if code != 0 {
            r matches Err(StorageError::Rclone { op: o, message: m }) && o@ == "lsl"@
        } else {
            r matches Ok(Outcome::Listing(v)) && entry_views(v@) == lsl_entries(stdout)
        },
        Op::FileSize { name, .. } => if code != 0 {
            r matches Err(StorageError::Rclone { op: o, message: m }) && o@ == "lsl"@
        } else {
            r matches Ok(Outcome::Size(s)) && s == first_size(lsl_entries(stdout), name@)
        },
        _ => if code != 0 {
            r matches Err(StorageError::Rclone { op: o, message: m }) && o@
                == capture_spec(op)->Some_0.0
        } else {
            r matches Ok(Outcome::Unit)
        },
    }
}

/// Reads back the exit code and output of a captured run.
pub fn finish_capture(op: &Op, code: i32, stdout: &str, stderr: &str) -> (r: StorageResult<Outcome>)
    requires
        !(op is UploadFile),
    ensures
        capture_result_ok(*op, code as int, stdout@, r),
        r matches Err(StorageError::Rclone { message, .. }) ==> message@ == stderr_or_text(
            code as int,
            stderr@,
        ),
{
    let sub: &'static str = match op {
        Op::EnsureReachable { .. } => "lsd",
        Op::MkDir { .. } => {
            return Ok(Outcome::Unit);
        },
        Op::UploadFile { .. } => "copy",
        Op::DeleteFile { .. } => "deletefile",
        Op::DeleteDir { .. } => "rmdir",
        Op::PurgeDir { .. } => "purge",
        Op::MovePath { .. } => "moveto",
        Op::ListFiles { .. } => "lsl",
        Op::FileSize { .. } => "lsl",
    };
    if code != 0 {
        return Err(StorageError::Rclone { op: sub, message: stderr_or(code, stderr) });
    }
    match op {
        Op::ListFiles { .. } => Ok(Outcome::Listing(parse_lsl(stdout))),
        Op::FileSize { name, .. } => {
            let entries = parse_lsl(stdout);
            Ok(Outcome::Size(find_size(&entries, name.as_str())))
        },
        _ => Ok(Outcome::Unit),
    }
}

/// The arguments of `rclone copy` after the local file: destination,
/// concurrency flags and, when progress is on, `-P`.
pub fn upload_args(rclone: &Rclone, dest_dir: &RemotePath) -> (r: Vec<String>)
    ensures
        string_views(r@) == seq![
            rclone_text(dest_dir@),
            "--checkers"@,
            dec_digits(rclone.checkers as nat),
            "--transfers"@,
            dec_digits(rclone.transfers as nat),
        ] + (if rclone.progress { seq!["-P"@] } else { Seq::empty() }),
{
    let mut v: Vec<String> = Vec::new();
    v.push(dest_dir.as_rclone());
    v.push("--checkers".to_owned());
    let c = dec_string(rclone.checkers as u64);
    v.push(string_of(c.as_slice()));
    v.push("--transfers".to_owned());
    let t = dec_string(rclone.transfers as u64);
    v.push(string_of(t.as_slice()));
    if rclone.progress {
        v.push("-P".to_owned());
    }
    assert(string_views(v@) =~= seq![
        rclone_text(dest_dir@),
        "--checkers"@,
        dec_digits(rclone.checkers as nat),
        "--transfers"@,
        dec_digits(rclone.transfers as nat),
    ] + (if rclone.progress { seq!["-P"@] } else { Seq::empty() }));
    v
}

/// The outcome of `rclone copy` from its exit status and that status's text.
pub fn finish_upload(success: bool, status_text: &str) -> (r: StorageResult<Outcome>)
    ensures
        success ==> r matches Ok(Outcome::Unit),
        !success ==> (r matches Err(StorageError::Rclone { op, message }) && op@ == "copy"@
            && message@ == "exit "@ + status_text@),
{
    if success {
        Ok(Outcome::Unit)
    } else {
        let s = chars_of(status_text);
        Err(StorageError::Rclone { op: "copy", message: lit_then("exit ", s.as_slice()) })
    }
}

} // verus!
