//! The storage repository: named use cases over the operation algebra.
//! Running the operations is the caller's effect; the decisions made around
//! them are here.

use crate::storage::error::{StorageError, StorageResult};
use crate::storage::op::{root_view, Op};
use crate::storage::path::{lemma_normalize_empty, norm_remote, rclone_text, RemotePath};
use crate::storage::rclone::Rclone;
use crate::text::{chars_of, concat, dec_digits, dec_string, string_of};
use vstd::prelude::*;

verus! {

/// Storage on one rclone installation.
#[derive(Debug, Clone)]
pub struct MegaRepository {
    rclone: Rclone,
}

impl MegaRepository {
    pub fn new(rclone: Rclone) -> (r: Self)
        ensures
            r.rclone_settings() == rclone,
    {
        MegaRepository { rclone }
    }

    pub fn from_bin(bin: &str) -> (r: Self)
        ensures
            r.rclone_settings().bin@ == bin@,
            r.rclone_settings().checkers == 4,
            r.rclone_settings().transfers == 2,
            r.rclone_settings().progress,
    {
        Self::new(Rclone::new(bin))
    }

    pub closed spec fn rclone_settings(&self) -> Rclone {
        self.rclone
    }

    pub fn rclone(&self) -> (r: &Rclone)
        ensures
            *r == self.rclone_settings(),
    {
        &self.rclone
    }
}

/// The reachability check of the remote that `any_on_remote` lives on; an
/// invalid remote name is reported as `Other` with the path error's text.
pub fn reachability_op(any_on_remote: &RemotePath) -> (r: StorageResult<Op>)
    ensures
        norm_remote(any_on_remote@.remote).len() > 0 ==> (r matches Ok(
            Op::EnsureReachable { remote_root },
        ) && remote_root@ == root_view(any_on_remote@)),
        norm_remote(any_on_remote@.remote).len() == 0 ==> (r matches Err(StorageError::Other(m))
            && m@ == "invalid path: empty remote name"@),
{
    proof {
        lemma_normalize_empty();
        reveal_strlit("");
    }
    match RemotePath::new(any_on_remote.remote(), "") {
        Ok(root) => Ok(Op::EnsureReachable { remote_root: root }),
        Err(e) => {
            let m = e.message();
            proof {
                reveal_strlit("invalid path: ");
                reveal_strlit("empty remote name");
                reveal_strlit("invalid path: empty remote name");
                assert("invalid path: "@ + "empty remote name"@ =~= "invalid path: empty remote name"@);
            }
            Err(StorageError::Other(m))
        },
    }
}

/// The text of `local={expected} remote={found} name={name}` size mismatch.
pub open spec fn mismatch_text(expected: u64, found: u64, name: Seq<char>) -> Seq<char> {
    "size mismatch after upload: local="@ + dec_digits(expected as nat) + " remote="@ + dec_digits(
        found as nat,
    ) + " name="@ + name
}

pub open spec fn not_listed_text(name: Seq<char>, dest: Seq<char>) -> Seq<char> {
    "uploaded file not listed: "@ + name + " in "@ + dest
}

/// Judges an upload by the size the remote lists for it.
pub fn check_uploaded_size(name: &str, dest_dir: &RemotePath, expected: u64, listed: Option<u64>) -> (r:
    StorageResult<()>)
    ensures
        listed == Some(expected) ==> r is Ok,
        listed matches Some(n) ==> (n != expected ==> (r matches Err(StorageError::Other(m))
            && m@ == mismatch_text(expected, n, name@))),
        listed is None ==> (r matches Err(StorageError::Other(m)) && m@ == not_listed_text(
            name@,
            rclone_text(dest_dir@),
        )),
{
    match listed {
        Some(n) => {
            if n == expected {
                Ok(())
            } else {
                let a = chars_of("size mismatch after upload: local=");
                let b = dec_string(expected);
                let c = chars_of(" remote=");
                let d = dec_string(n);
                let e = chars_of(" name=");
                let f = chars_of(name);
                let ab = concat(a.as_slice(), b.as_slice());
                let abc = concat(ab.as_slice(), c.as_slice());
                let abcd = concat(abc.as_slice(), d.as_slice());
                let abcde = concat(abcd.as_slice(), e.as_slice());
                let all = concat(abcde.as_slice(), f.as_slice());
                Err(StorageError::Other(string_of(all.as_slice())))
            }
        },
        None => {
            let a = chars_of("uploaded file not listed: ");
            let b = chars_of(name);
            let c = chars_of(" in ");
            let dest = dest_dir.as_rclone();
            let d = chars_of(dest.as_str());
            let ab = concat(a.as_slice(), b.as_slice());
            let abc = concat(ab.as_slice(), c.as_slice());
            let all = concat(abc.as_slice(), d.as_slice());
            Err(StorageError::Other(string_of(all.as_slice())))
        },
    }
}

} // verus!
