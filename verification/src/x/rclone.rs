//! X / Twitter: reading what `rclone` reports about the destination.

use crate::text::{
    chars_of, concat, contains, contains_exec, index_of, index_of_exec, is_char, parse_u64,
    parse_u64_exec, slice_vec, split_by, split_exec, string_of, views, words, words_exec, Sep,
};
use vstd::prelude::*;

verus! {

/// The remote to probe for a destination: its `name:` part, else `mega:`.
pub open spec fn spec_remote_name(hint: Seq<char>) -> Seq<char> {
    match index_of(hint, ':') {
        Some(i) => hint.take(i as int) + ":"@,
        None => "mega:"@,
    }
}

pub fn remote_name(hint: &str) -> (r: String)
    ensures
        r@ == spec_remote_name(hint@),
{
    let v = chars_of(hint);
    match index_of_exec(v.as_slice(), ':') {
        Some(i) => {
            let head = slice_vec(v.as_slice(), 0, i);
            let colon = chars_of(":");
            assert(head@ =~= v@.take(i as int));
            string_of(concat(head.as_slice(), colon.as_slice()).as_slice())
        },
        None => String::from_str("mega:"),
    }
}

/// A line as `str::lines` gives it: without a final carriage return.
pub open spec fn strip_cr(line: Seq<char>) -> Seq<char> {
    if line.len() > 0 && line.last() == '\r' {
        line.drop_last()
    } else {
        line
    }
}

/// The size on a listing line that names the file: the line's first word
/// as a number.
pub open spec fn line_size(line: Seq<char>, name: Seq<char>) -> Option<u64> {
    let l = strip_cr(line);
    if contains(l, name) && words(l).len() > 0 {
        parse_u64(words(l)[0])
    } else {
        None
    }
}

/// The first size that a line of `lines[from..]` gives.
pub open spec fn first_line_size(lines: Seq<Seq<char>>, name: Seq<char>, from: int) -> Option<u64>
    decreases lines.len() - from,
{
    if from < 0 || from >= lines.len() {
        None
    } else {
        match line_size(lines[from], name) {
            Some(n) => Some(n),
            None => first_line_size(lines, name, from + 1),
        }
    }
}

/// The size that an `rclone lsl` listing gives for a file name: that of the
/// first line that holds the name and starts with a number.
pub open spec fn spec_listed_size(text: Seq<char>, name: Seq<char>) -> Option<u64> {
    first_line_size(split_by(text, is_char('\n')), name, 0)
}

pub fn listed_size(text: &str, filename: &str) -> (r: Option<u64>)
    ensures
        r == spec_listed_size(text@, filename@),
{
    let t = chars_of(text);
    let name = chars_of(filename);
    let lines = split_exec(t.as_slice(), Sep::Char('\n'));
    let ghost lv = views(lines@);
    let mut i: usize = 0;
    while i < lines.len()
        invariant
            i <= lines.len(),
            lv == views(lines@),
            lv == split_by(t@, is_char('\n')),
            t@ == text@,
            name@ == filename@,
            first_line_size(lv, name@, 0) == first_line_size(lv, name@, i as int),
        decreases lines.len() - i,
    {
        let line = lines[i].as_slice();
        assert(lv[i as int] == line@);
        let l = if line.len() > 0 && line[line.len() - 1] == '\r' {
            slice_vec(line, 0, line.len() - 1)
        } else {
            slice_vec(line, 0, line.len())
        };
        assert(l@ =~= strip_cr(line@));
        if contains_exec(l.as_slice(), name.as_slice()) {
            let w = words_exec(l.as_slice());
            if w.len() > 0 {
                assert(views(w@)[0] == w@[0]@);
                match parse_u64_exec(w[0].as_slice()) {
                    Some(n) => {
                        return Some(n);
                    },
                    None => {},
                }
            }
        }
        i = i + 1;
    }
    None
}

} // verus!
