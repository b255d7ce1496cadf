//! The algebra of storage operations: commands as plain data.

use crate::storage::error::StorageError;
use crate::storage::path::{lemma_normalize_empty, norm_remote, RemotePath, RemotePathView};
use vstd::prelude::*;

verus! {

#[verifier::external_type_specification]
#[verifier::external_body]
pub struct ExPathBuf(std::path::PathBuf);

/// `<PathBuf as Clone>::clone`: the copy is the same path.
pub assume_specification[ <std::path::PathBuf as Clone>::clone ](p: &std::path::PathBuf) -> (r:
    std::path::PathBuf)
    ensures
        r == *p,
;

/// One storage command.
#[derive(Debug, Clone, PartialEq, Eq)]
pub enum Op {
    /// The remote's root answers (authentication and reachability).
    EnsureReachable { remote_root: RemotePath },
    /// Create a directory (an existing one is fine).
    MkDir { dir: RemotePath },
    /// Copy a local file into a directory, under the local file's name.
    UploadFile { local: std::path::PathBuf, dest_dir: RemotePath },
    /// Delete one file.
    DeleteFile { path: RemotePath },
    /// Delete an empty directory.
    DeleteDir { dir: RemotePath },
    /// Delete a directory with its contents.
    PurgeDir { dir: RemotePath },
    /// Move or rename a file or directory.
    MovePath { from: RemotePath, to: RemotePath },
    /// List the files directly in a directory.
    ListFiles { dir: RemotePath },
    /// The size of the file with this name in a directory.
    FileSize { dir: RemotePath, name: String },
}

/// What running an operation yields.
#[derive(Debug, Clone, PartialEq, Eq)]
pub enum Outcome {
    Unit,
    Size(Option<u64>),
    Listing(Vec<RemoteEntry>),
}

/// One file of a listing.
#[derive(Debug, Clone, PartialEq, Eq)]
pub struct RemoteEntry {
    pub name: String,
    pub size: u64,
}

/// An ordered sequence of operations.
#[derive(Debug, Clone, PartialEq, Eq)]
pub struct Program(pub Vec<Op>);

impl Default for Program {
    fn default() -> (r: Self)
        ensures
            r.0@ == Seq::<Op>::empty(),
    {
        Program(Vec::new())
    }
}

impl Program {
    pub fn empty() -> (r: Self)
        ensures
            r.0@ == Seq::<Op>::empty(),
    {
        Program(Vec::new())
    }

    pub fn pure(op: Op) -> (r: Self)
        ensures
            r.0@ == seq![op],
    {
        let mut v = Vec::new();
        v.push(op);
        Program(v)
    }

    pub fn and_then(self, op: Op) -> (r: Self)
        ensures
            r.0@ == self.0@.push(op),
    {
        let mut v = self.0;
        v.push(op);
        Program(v)
    }

    pub fn append(self, other: Program) -> (r: Self)
        ensures
            r.0@ == self.0@ + other.0@,
    {
        let mut v = self.0;
        let mut w = other.0;
        v.append(&mut w);
        Program(v)
    }

    pub fn ops(&self) -> (r: &[Op])
        ensures
            r@ == self.0@,
    {
        self.0.as_slice()
    }

    pub fn into_ops(self) -> (r: Vec<Op>)
        ensures
            r@ == self.0@,
    {
        self.0
    }
}

/// Programs form a monoid under `append`, with `empty` as identity, and
/// `and_then(op)` is `append(pure(op))`.
pub proof fn lemma_program_monoid(a: Seq<Op>, b: Seq<Op>, c: Seq<Op>, op: Op)
    ensures
        Seq::<Op>::empty() + a == a,
        a + Seq::<Op>::empty() == a,
        (a + b) + c == a + (b + c),
        a.push(op) == a + seq![op],
{
    assert(Seq::<Op>::empty() + a =~= a);
    assert(a + Seq::<Op>::empty() =~= a);
    assert((a + b) + c =~= a + (b + c));
    assert(a.push(op) =~= a + seq![op]);
}

/// The root of the remote that `dir` lives on.
pub open spec fn root_view(dir: RemotePathView) -> RemotePathView {
    RemotePathView { remote: norm_remote(dir.remote), path: Seq::empty() }
}

/// Reachability check, then directory creation.
pub fn ensure_and_mkdir(dir: RemotePath) -> (r: Program)
    requires
        norm_remote(dir@.remote).len() > 0,
    ensures
        r.0@.len() == 2,
        r.0@[0] matches Op::EnsureReachable { remote_root } && remote_root@ == root_view(dir@),
        r.0@[1] == (Op::MkDir { dir }),
{
    proof {
        lemma_normalize_empty();
        reveal_strlit("");
    }
    let root = match RemotePath::new(dir.remote(), "") {
        Ok(root) => root,
        Err(_) => {
            assert(false);
            return Program::empty();
        },
    };
    Program::empty().and_then(Op::EnsureReachable { remote_root: root }).and_then(
        Op::MkDir { dir },
    )
}

/// Reachability check, directory creation, then the upload.
pub fn upload_into(dir: RemotePath, local: std::path::PathBuf) -> (r: Program)
    requires
        norm_remote(dir@.remote).len() > 0,
    ensures
        r.0@.len() == 3,
        r.0@[0] matches Op::EnsureReachable { remote_root } && remote_root@ == root_view(dir@),
        r.0@[1] matches Op::MkDir { dir: d } && d@ == dir@,
        r.0@[2] == (Op::UploadFile { local, dest_dir: dir }),
{
    let d = dir.clone();
    ensure_and_mkdir(d).and_then(Op::UploadFile { local, dest_dir: dir })
}

} // verus!
