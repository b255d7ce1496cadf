//! File-name policies shared by the site commands.

use crate::text::{chars_of, concat, ends_with, ends_with_exec, lower, lower_exec, string_of};
use vstd::prelude::*;

verus! {

/// `name`, with `ext` (lower case, with its dot) appended unless the name
/// already ends with it in any ASCII case.
pub open spec fn with_ext(name: Seq<char>, ext: Seq<char>) -> Seq<char> {
    if ends_with(lower(name), ext) {
        name
    } else {
        name + ext
    }
}

pub fn with_ext_exec(name: &[char], ext: &str) -> (r: Vec<char>)
    ensures
        r@ == with_ext(name@, ext@),
{
    let e = chars_of(ext);
    let l = lower_exec(name);
    if ends_with_exec(l.as_slice(), e.as_slice()) {
        crate::text::slice_vec(name, 0, name.len())
    } else {
        concat(name, e.as_slice())
    }
}

/// `name` with `ext` appended unless it already ends with it (ASCII case
/// ignored).
pub fn ensure_ext(name: &str, ext: &str) -> (r: String)
    ensures
        r@ == with_ext(name@, ext@),
{
    let n = chars_of(name);
    string_of(with_ext_exec(n.as_slice(), ext).as_slice())
}

/// Adding an extension is idempotent.
pub proof fn lemma_with_ext_idempotent(name: Seq<char>, ext: Seq<char>)
    requires
        lower(ext) == ext,
    ensures
        with_ext(with_ext(name, ext), ext) == with_ext(name, ext),
        ends_with(lower(with_ext(name, ext)), ext),
{
    if !ends_with(lower(name), ext) {
        let n2 = name + ext;
        assert(lower(n2) =~= lower(name) + lower(ext));
        assert(lower(n2).skip(lower(n2).len() - ext.len()) =~= ext);
    }
}

} // verus!
