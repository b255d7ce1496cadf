//! Remote path values in rclone form: `{remote}:{path}`.

use crate::storage::error::{StorageError, StorageResult};
use crate::text::{
    chars_of, concat, contains, contains_exec, has_char_exec, index_of, index_of_exec, is_char, is_ws,
    join_exec, join_with, last_index_of, last_index_of_exec, slice_vec, split_by, split_exec,
    string_of, trim, trim_by, trim_char, trim_end_by, trim_end_char, trim_exec, trim_start_by,
    trim_start_char, views, Sep,
};
use vstd::prelude::*;

verus! {

/// A remote name and a path below its root, without a leading `/`
/// (the empty path is the remote's root).
#[derive(Debug, PartialEq, Eq, Hash)]
pub struct RemotePath {
    remote: String,
    path: String,
}

/// What a `RemotePath` denotes.
pub struct RemotePathView {
    pub remote: Seq<char>,
    pub path: Seq<char>,
}

impl View for RemotePath {
    type V = RemotePathView;

    closed spec fn view(&self) -> RemotePathView {
        RemotePathView { remote: self.remote@, path: self.path@ }
    }
}

pub open spec fn slash() -> spec_fn(char) -> bool {
    is_char('/')
}

/// A remote name as stored: trimmed, without trailing `:`.
pub open spec fn norm_remote(remote: Seq<char>) -> Seq<char> {
    trim_end_by(trim(remote), is_char(':'))
}

/// Path segments that survive normalization: non-empty and not `.`.
pub open spec fn keep_segment() -> spec_fn(Seq<char>) -> bool {
    |seg: Seq<char>| seg.len() > 0 && seg != seq!['.']
}

/// A path as stored: trimmed, stripped of surrounding `/`, with empty and `.`
/// segments dropped.
pub open spec fn normalize_path(path: Seq<char>) -> Seq<char> {
    let t = trim_end_by(trim_start_by(trim(path), slash()), slash());
    join_with(split_by(t, slash()).filter(keep_segment()), '/')
}

/// The outcome of building a remote path: the value, or the message of the
/// `InvalidPath` error.
pub open spec fn spec_new(remote: Seq<char>, path: Seq<char>) -> Result<RemotePathView, Seq<char>> {
    let r = norm_remote(remote);
    if r.len() == 0 {
        Err("empty remote name"@)
    } else {
        Ok(RemotePathView { remote: r, path: normalize_path(path) })
    }
}

/// The outcome of parsing `remote:path` or a bare path on `default_remote`.
pub open spec fn spec_parse(input: Seq<char>, default_remote: Seq<char>) -> Result<
    RemotePathView,
    Seq<char>,
> {
    let s = trim_end_by(trim(input), slash());
    if s.len() == 0 {
        Err("empty path"@)
    } else {
        match index_of(s, ':') {
            Some(i) => {
                let remote = trim(s.take(i as int));
                if remote.len() == 0 {
                    Err("empty remote before ':'"@)
                } else {
                    spec_new(remote, s.skip(i as int + 1))
                }
            },
            None => spec_new(default_remote, s),
        }
    }
}

/// Whether a result is the given outcome.
pub open spec fn path_result_is(
    r: StorageResult<RemotePath>,
    s: Result<RemotePathView, Seq<char>>,
) -> bool {
    match (r, s) {
        (Ok(p), Ok(v)) => p@ == v,
        (Err(StorageError::InvalidPath(m)), Err(msg)) => m@ == msg,
        _ => false,
    }
}

/// The full rclone form `remote:path` (`remote:` for the root).
pub open spec fn rclone_text(v: RemotePathView) -> Seq<char> {
    v.remote.push(':') + v.path
}

/// The last segment of a path, if the path is not the root.
pub open spec fn name_of(path: Seq<char>) -> Option<Seq<char>> {
    if path.len() == 0 {
        None
    } else {
        match last_index_of(path, '/') {
            Some(i) => Some(path.skip(i as int + 1)),
            None => Some(path),
        }
    }
}

/// The path one level up, if the path is not the root.
pub open spec fn parent_of(path: Seq<char>) -> Option<Seq<char>> {
    if path.len() == 0 {
        None
    } else {
        match last_index_of(path, '/') {
            Some(i) => Some(path.take(i as int)),
            None => Some(Seq::empty()),
        }
    }
}

/// The segment that `join` appends: trimmed, stripped of surrounding `/`.
pub open spec fn join_segment(name: Seq<char>) -> Seq<char> {
    trim_by(trim(name), slash())
}

/// The outcome of appending one segment to a path.
pub open spec fn spec_join(path: Seq<char>, name: Seq<char>) -> Result<Seq<char>, Seq<char>> {
    let n = join_segment(name);
    if n.len() == 0 {
        Err("empty join name"@)
    } else if contains(n, ".."@) || n.contains('/') || n.contains('\\') {
        Err("join name must be a single segment: "@ + n)
    } else if path.len() == 0 {
        Ok(n)
    } else {
        Ok(path.push('/') + n)
    }
}

/// Joining a segment and then going up gives back the path, and the joined
/// path's name is the segment that was appended.
pub proof fn lemma_join_then_parent(path: Seq<char>, name: Seq<char>)
    requires
        spec_join(path, name) is Ok,
    ensures
        parent_of(spec_join(path, name)->Ok_0) == Some(path),
        name_of(spec_join(path, name)->Ok_0) == Some(join_segment(name)),
{
    let n = join_segment(name);
    let joined = spec_join(path, name)->Ok_0;
    assert forall|j: int| 0 <= j < n.len() implies n[j] != '/' by {
        if n[j] == '/' {
            assert(n.contains('/'));
        }
    }
    if path.len() == 0 {
        assert(joined == n);
        crate::text::lemma_last_index_of(joined, '/', -1);
    } else {
        let k = path.len() as int;
        assert(joined =~= path.push('/') + n);
        assert(joined[k] == '/');
        assert forall|j: int| k < j < joined.len() implies joined[j] != '/' by {
            assert(joined[j] == n[j - k - 1]);
        }
        crate::text::lemma_last_index_of(joined, '/', k);
        assert(joined.take(k) =~= path);
        assert(joined.skip(k + 1) =~= n);
    }
}

/// A path is the root exactly when it has no name and no parent.
pub proof fn lemma_root_has_no_name_or_parent(path: Seq<char>)
    ensures
        (path.len() == 0) == (name_of(path) is None),
        (path.len() == 0) == (parent_of(path) is None),
{
}

proof fn lemma_trim_idempotent(s: Seq<char>)
    ensures
        trim(trim(s)) == trim(s),
        forall|k: int| 0 <= k < trim(s).len() ==> exists|j: int| 0 <= j < s.len() && s[j] == #[trigger] trim(s)[k],
{
    let p = crate::text::ws();
    crate::text::lemma_lead_len_bound(s, p);
    let u = trim_start_by(s, p);
    crate::text::lemma_trail_len_bound(u, p);
    let t = trim(s);
    assert forall|k: int| 0 <= k < t.len() implies exists|j: int| 0 <= j < s.len() && s[j] == #[trigger] t[k] by {
        assert(s[lead_len_of(s) + k] == t[k]);
    }
    if t.len() > 0 {
        assert(t[0] == s[lead_len_of(s)]);
        assert(t[t.len() - 1] == u[u.len() - 1 - crate::text::trail_len(u, p)]);
    }
    crate::text::lemma_lead_len(t, p, 0);
    crate::text::lemma_trail_len(t, p, 0);
    assert(trim(t) =~= t);
}

spec fn lead_len_of(s: Seq<char>) -> int {
    crate::text::lead_len(s, crate::text::ws()) as int
}

proof fn lemma_trim_end_absent(s: Seq<char>, c: char)
    requires
        !s.contains(c),
    ensures
        trim_end_by(s, is_char(c)) == s,
{
    if s.len() > 0 {
        assert(s[s.len() - 1] != c);
    }
    crate::text::lemma_trail_len(s, is_char(c), 0);
    assert(s.take(s.len() as int) =~= s);
}

/// A remote name without `:` normalizes to its trimmed self, and is left
/// as it is when normalized again.
pub proof fn lemma_norm_remote_stable(r: Seq<char>)
    requires
        !r.contains(':'),
    ensures
        norm_remote(r) == trim(r),
        norm_remote(norm_remote(r)) == norm_remote(r),
        !norm_remote(r).contains(':'),
{
    lemma_trim_idempotent(r);
    let t = trim(r);
    if t.contains(':') {
        let k = choose|k: int| 0 <= k < t.len() && t[k] == ':';
        assert(exists|j: int| 0 <= j < r.len() && r[j] == t[k]);
    }
    lemma_trim_end_absent(t, ':');
    lemma_trim_idempotent(t);
}

proof fn lemma_index_of_first(s: Seq<char>, c: char)
    ensures
        index_of(s, c) matches Some(i) ==> i < s.len() && s[i as int] == c && !s.take(i as int).contains(c),
    decreases s.len(),
{
    if s.len() > 0 && s[0] != c {
        lemma_index_of_first(s.drop_first(), c);
        if let Some(i) = index_of(s, c) {
            assert forall|j: int| 0 <= j < i implies s.take(i as int)[j] != c by {
                if j > 0 {
                    assert(s.take(i as int)[j] == s.drop_first().take(i - 1)[j - 1]);
                }
            }
        }
    }
}

/// A path parsed on a default remote without `:` has a non-empty remote
/// name without `:`, already normalized: it names the remote's root as it
/// is, so the operations that start from that root accept it.
pub proof fn lemma_parsed_remote_normalized(input: Seq<char>, default_remote: Seq<char>)
    requires
        !default_remote.contains(':'),
        spec_parse(input, default_remote) is Ok,
    ensures
        ({
            let v = spec_parse(input, default_remote)->Ok_0;
            &&& v.remote.len() > 0
            &&& !v.remote.contains(':')
            &&& norm_remote(v.remote) == v.remote
        }),
{
    let s = trim_end_by(trim(input), slash());
    match index_of(s, ':') {
        Some(i) => {
            lemma_index_of_first(s, ':');
            let remote = trim(s.take(i as int));
            lemma_trim_idempotent(s.take(i as int));
            if remote.contains(':') {
                let k = choose|k: int| 0 <= k < remote.len() && remote[k] == ':';
                assert(exists|j: int| 0 <= j < s.take(i as int).len() && s.take(i as int)[j] == remote[k]);
            }
            lemma_norm_remote_stable(remote);
        },
        None => {
            lemma_norm_remote_stable(default_remote);
        },
    }
}

proof fn lemma_join_ends(segs: Seq<Seq<char>>, c: char)
    requires
        segs.len() >= 1,
        forall|i: int| 0 <= i < segs.len() ==> (#[trigger] segs[i]).len() > 0,
    ensures
        join_with(segs, c).len() > 0,
        join_with(segs, c)[0] == segs[0][0],
        join_with(segs, c).last() == segs.last().last(),
    decreases segs.len(),
{
    if segs.len() > 1 {
        let init = segs.drop_last();
        assert forall|i: int| 0 <= i < init.len() implies (#[trigger] init[i]).len() > 0 by {
            assert(init[i] == segs[i]);
        }
        lemma_join_ends(init, c);
        assert(init[0] == segs[0]);
    }
}

proof fn lemma_filter_keeps_all(parts: Seq<Seq<char>>, pred: spec_fn(Seq<char>) -> bool)
    requires
        forall|i: int| 0 <= i < parts.len() ==> pred(#[trigger] parts[i]),
    ensures
        parts.filter(pred) == parts,
    decreases parts.len(),
{
    reveal(Seq::filter);
    if parts.len() > 0 {
        let init = parts.drop_last();
        assert forall|i: int| 0 <= i < init.len() implies pred(#[trigger] init[i]) by {
            assert(init[i] == parts[i]);
        }
        lemma_filter_keeps_all(init, pred);
        assert(pred(parts[parts.len() - 1]));
        assert(init.push(parts.last()) =~= parts);
    }
}

/// The segments a path keeps, and that they hold no `/`.
proof fn lemma_kept_segments(path: Seq<char>)
    ensures
        ({
            let t = trim_end_by(trim_start_by(trim(path), slash()), slash());
            let f = split_by(t, slash()).filter(keep_segment());
            &&& normalize_path(path) == join_with(f, '/')
            &&& forall|i: int, k: int| 0 <= i < f.len() && 0 <= k < f[i].len() ==> #[trigger] f[i][k]
                != '/'
            &&& forall|i: int| 0 <= i < f.len() ==> keep_segment()(#[trigger] f[i])
        }),
{
    let t = trim_end_by(trim_start_by(trim(path), slash()), slash());
    let parts = split_by(t, slash());
    let f = parts.filter(keep_segment());
    crate::text::lemma_split_by_pieces(t, slash());
    assert forall|i: int, k: int| 0 <= i < f.len() && 0 <= k < f[i].len() implies #[trigger] f[i][k]
        != '/' by {
        assert(f.contains(f[i]));
        parts.lemma_filter_contains_rev(keep_segment(), f[i]);
        let j = choose|j: int| 0 <= j < parts.len() && parts[j] == f[i];
        assert(!slash()(parts[j][k]));
    }
    parts.filter_lemma(keep_segment());
}

/// A stored path neither starts nor ends with `/`, and one that is also
/// trimmed is left as it is by normalizing it again.
pub proof fn lemma_normalized_stable(path: Seq<char>)
    ensures
        ({
            let n = normalize_path(path);
            &&& n.len() > 0 ==> n[0] != '/' && n.last() != '/'
            &&& trim(n) == n ==> normalize_path(n) == n
        }),
{
    let t = trim_end_by(trim_start_by(trim(path), slash()), slash());
    let f = split_by(t, slash()).filter(keep_segment());
    lemma_kept_segments(path);
    let n = normalize_path(path);
    if f.len() > 0 {
        assert forall|i: int| 0 <= i < f.len() implies (#[trigger] f[i]).len() > 0 by {
            assert(keep_segment()(f[i]));
        }
        lemma_join_ends(f, '/');
        assert(f[0][0] != '/');
        assert(f[f.len() - 1][f[f.len() - 1].len() - 1] != '/');
        if trim(n) == n {
            crate::text::lemma_lead_len(n, slash(), 0);
            crate::text::lemma_trail_len(n, slash(), 0);
            assert(trim_start_by(n, slash()) =~= n);
            assert(trim_end_by(n, slash()) =~= n);
            crate::text::lemma_split_join(f, '/');
            lemma_filter_keeps_all(f, keep_segment());
        }
    } else {
        assert(n == Seq::<char>::empty());
        if trim(n) == n {
            lemma_normalize_empty();
        }
    }
}

/// A stored path is the root, or `/`-separated segments that are all
/// non-empty and none `.`: no leading, trailing or doubled `/`.
pub proof fn lemma_normalized_segments(path: Seq<char>)
    ensures
        ({
            let n = normalize_path(path);
            let segs = split_by(n, slash());
            n.len() == 0 || forall|i: int|
                0 <= i < segs.len() ==> (#[trigger] segs[i]).len() > 0 && segs[i] != seq!['.']
        }),
{
    let t = trim_end_by(trim_start_by(trim(path), slash()), slash());
    let f = split_by(t, slash()).filter(keep_segment());
    lemma_kept_segments(path);
    if f.len() > 0 {
        crate::text::lemma_split_join(f, '/');
        assert forall|i: int| 0 <= i < f.len() implies (#[trigger] f[i]).len() > 0 && f[i] != seq!['.'] by {
            assert(keep_segment()(f[i]));
        }
    } else {
        assert(join_with(f, '/') == Seq::<char>::empty());
    }
}

/// When parsing fails: on an empty input, on a blank remote name before the
/// first `:`, or, without `:`, on a default remote that normalizes to
/// nothing. A bare path lands on the normalized default remote.
pub proof fn lemma_parse_outcomes(input: Seq<char>, default_remote: Seq<char>)
    ensures
        ({
            let s = trim_end_by(trim(input), slash());
            &&& spec_parse(input, default_remote) is Err <==> (s.len() == 0 || match index_of(s, ':') {
                Some(i) => trim(s.take(i as int)).len() == 0,
                None => norm_remote(default_remote).len() == 0,
            })
            &&& (s.len() > 0 && index_of(s, ':') is None && spec_parse(input, default_remote) is Ok)
                ==> spec_parse(input, default_remote)->Ok_0.remote == norm_remote(default_remote)
        }),
{
    let s = trim_end_by(trim(input), slash());
    if s.len() > 0 {
        if let Some(i) = index_of(s, ':') {
            lemma_index_of_first(s, ':');
            let remote = trim(s.take(i as int));
            lemma_trim_idempotent(s.take(i as int));
            if remote.contains(':') {
                let k = choose|k: int| 0 <= k < remote.len() && remote[k] == ':';
                assert(exists|j: int| 0 <= j < s.take(i as int).len() && s.take(i as int)[j] == remote[k]);
            }
            lemma_norm_remote_stable(remote);
        }
    }
}

proof fn lemma_trimmed_ends(x: Seq<char>)
    requires
        trim(x) == x,
        x.len() > 0,
    ensures
        !is_ws(x[0]),
        !is_ws(x.last()),
{
    let p = crate::text::ws();
    crate::text::lemma_lead_len_bound(x, p);
    let u = trim_start_by(x, p);
    crate::text::lemma_trail_len_bound(u, p);
    assert(crate::text::lead_len(x, p) == 0);
    assert(u =~= x);
    assert(crate::text::trail_len(u, p) == 0);
}

/// The path that `x` parses to (on `default_remote`), before normalizing.
spec fn parsed_path_text(input: Seq<char>, default_remote: Seq<char>) -> Seq<char> {
    let s = trim_end_by(trim(input), slash());
    match index_of(s, ':') {
        Some(i) => s.skip(i as int + 1),
        None => s,
    }
}

/// Printing a parsed path in rclone form and parsing it again gives the
/// same path back, where the stored path carries no surrounding blanks.
pub proof fn lemma_parse_round_trip(input: Seq<char>)
    requires
        spec_parse(input, "mega"@) is Ok,
        trim(spec_parse(input, "mega"@)->Ok_0.path) == spec_parse(input, "mega"@)->Ok_0.path,
    ensures
        spec_parse(rclone_text(spec_parse(input, "mega"@)->Ok_0), "mega"@) == spec_parse(
            input,
            "mega"@,
        ),
{
    reveal_strlit("mega");
    let v = spec_parse(input, "mega"@)->Ok_0;
    let r = v.remote;
    let p = v.path;
    assert(!"mega"@.contains(':')) by {
        if "mega"@.contains(':') {
            let k = choose|k: int| 0 <= k < "mega"@.len() && "mega"@[k] == ':';
        }
    }
    lemma_parsed_remote_normalized(input, "mega"@);
    lemma_norm_remote_stable(r);
    assert(p == normalize_path(parsed_path_text(input, "mega"@)));
    lemma_normalized_stable(parsed_path_text(input, "mega"@));
    lemma_trimmed_ends(r);
    if p.len() > 0 {
        lemma_trimmed_ends(p);
    }
    let w = rclone_text(v);
    assert(w[0] == r[0]);
    assert(w.last() == if p.len() > 0 { p.last() } else { ':' });
    crate::text::lemma_lead_len(w, crate::text::ws(), 0);
    crate::text::lemma_trail_len(w, crate::text::ws(), 0);
    assert(trim(w) =~= w);
    crate::text::lemma_trail_len(w, slash(), 0);
    assert(trim_end_by(w, slash()) =~= w);
    assert forall|j: int| 0 <= j < r.len() implies w[j] != ':' by {
        assert(w[j] == r[j]);
    }
    assert(w[r.len() as int] == ':');
    crate::text::lemma_index_of(w, ':', r.len() as int);
    assert(w.take(r.len() as int) =~= r);
    assert(w.skip(r.len() as int + 1) =~= p);
}

/// The empty path normalizes to the root.
pub proof fn lemma_normalize_empty()
    ensures
        normalize_path(Seq::empty()) == Seq::<char>::empty(),
{
    reveal(Seq::filter);
    let e = Seq::<char>::empty();
    crate::text::lemma_lead_len(e, crate::text::ws(), 0);
    crate::text::lemma_trail_len(e, crate::text::ws(), 0);
    assert(trim(e) =~= e);
    crate::text::lemma_lead_len(e, slash(), 0);
    crate::text::lemma_trail_len(e, slash(), 0);
    assert(trim_end_by(trim_start_by(e, slash()), slash()) =~= e);
    let parts = split_by(e, slash());
    assert(parts == seq![e]);
    assert(parts.drop_last() =~= Seq::<Seq<char>>::empty());
    assert(parts.last() == e);
    assert(!keep_segment()(e));
    assert(Seq::<Seq<char>>::empty().filter(keep_segment()) =~= Seq::<Seq<char>>::empty());
    assert(parts.filter(keep_segment()) =~= Seq::<Seq<char>>::empty());
}

/// Keeps the segments that normalization keeps.
fn keep_segments(parts: Vec<Vec<char>>) -> (r: Vec<Vec<char>>)
    ensures
        views(r@) == views(parts@).filter(keep_segment()),
{
    let ghost dv = views(parts@);
    let mut r: Vec<Vec<char>> = Vec::new();
    let mut i: usize = 0;
    while i < parts.len()
        invariant
            i <= parts.len(),
            dv == views(parts@),
            views(r@) =~= dv.take(i as int).filter(keep_segment()),
        decreases parts.len() - i,
    {
        assert(dv.take(i + 1).drop_last() =~= dv.take(i as int));
        assert(dv.take(i + 1).last() == parts@[i as int]@);
        proof {
            reveal(Seq::filter);
        }
        let seg = &parts[i];
        let is_dot = seg.len() == 1 && seg[0] == '.';
        assert(is_dot == (seg@ == seq!['.'])) by {
            if seg@.len() == 1 && seg@[0] == '.' {
                assert(seg@ =~= seq!['.']);
            }
        }
        if seg.len() > 0 && !is_dot {
            let w = slice_vec(seg.as_slice(), 0, seg.len());
            assert(w@ =~= seg@);
            let ghost before = r@;
            r.push(w);
            assert(views(r@) =~= views(before).push(w@));
        }
        i = i + 1;
    }
    assert(dv.take(parts.len() as int) =~= dv);
    r
}

fn normalize_path_part(path: &[char]) -> (r: Vec<char>)
    ensures
        r@ == normalize_path(path@),
{
    let t = trim_exec(path);
    let t = trim_start_char(t.as_slice(), '/');
    let t = trim_end_char(t.as_slice(), '/');
    let parts = split_exec(t.as_slice(), Sep::Char('/'));
    let kept = keep_segments(parts);
    assert(views(kept@).skip(0) =~= views(kept@));
    join_exec(&kept, 0, '/')
}

fn invalid(msg: &str) -> (e: StorageError)
    ensures
        e matches StorageError::InvalidPath(m) && m@ == msg@,
{
    StorageError::InvalidPath(msg.to_owned())
}

fn new_from_chars(remote: &[char], path: &[char]) -> (r: StorageResult<RemotePath>)
    ensures
        path_result_is(r, spec_new(remote@, path@)),
{
    let r1 = trim_exec(remote);
    let r2 = trim_end_char(r1.as_slice(), ':');
    if r2.len() == 0 {
        return Err(invalid("empty remote name"));
    }
    let p = normalize_path_part(path);
    Ok(RemotePath { remote: string_of(r2.as_slice()), path: string_of(p.as_slice()) })
}

fn parse_with_default_remote(input: &str, default_remote: &str) -> (r: StorageResult<RemotePath>)
    ensures
        path_result_is(r, spec_parse(input@, default_remote@)),
{
    let v = chars_of(input);
    let t = trim_exec(v.as_slice());
    let s = trim_end_char(t.as_slice(), '/');
    if s.len() == 0 {
        return Err(invalid("empty path"));
    }
    match index_of_exec(s.as_slice(), ':') {
        Some(i) => {
            let before = slice_vec(s.as_slice(), 0, i);
            let remote = trim_exec(before.as_slice());
            if remote.len() == 0 {
                return Err(invalid("empty remote before ':'"));
            }
            let rest = slice_vec(s.as_slice(), i + 1, s.len());
            assert(before@ =~= s@.take(i as int));
            assert(rest@ =~= s@.skip(i + 1));
            new_from_chars(remote.as_slice(), rest.as_slice())
        },
        None => {
            let d = chars_of(default_remote);
            new_from_chars(d.as_slice(), s.as_slice())
        },
    }
}

impl Clone for RemotePath {
    fn clone(&self) -> (r: Self)
        ensures
            r@ == self@,
    {
        proof {
            use_type_invariant(self);
        }
        RemotePath { remote: self.remote.clone(), path: self.path.clone() }
    }
}

impl RemotePath {
    /// Every remote path names a remote.
    #[verifier::type_invariant]
    spec fn inv(self) -> bool {
        self.remote@.len() > 0
    }

    /// `mega:video/r18/0`, or `video/r18/0` on the default remote `mega`.
    pub fn parse(input: &str) -> (r: StorageResult<RemotePath>)
        ensures
            path_result_is(r, spec_parse(input@, "mega"@)),
    {
        parse_with_default_remote(input, "mega")
    }

    pub fn parse_with_default(input: &str, default_remote: &str) -> (r: StorageResult<RemotePath>)
        ensures
            path_result_is(r, spec_parse(input@, default_remote@)),
    {
        parse_with_default_remote(input, default_remote)
    }

    pub fn new(remote: &str, path: &str) -> (r: StorageResult<RemotePath>)
        ensures
            path_result_is(r, spec_new(remote@, path@)),
    {
        let rv = chars_of(remote);
        let pv = chars_of(path);
        new_from_chars(rv.as_slice(), pv.as_slice())
    }

    pub fn remote(&self) -> (r: &str)
        ensures
            r@ == self@.remote,
    {
        self.remote.as_str()
    }

    pub fn path(&self) -> (r: &str)
        ensures
            r@ == self@.path,
    {
        self.path.as_str()
    }

    /// The remote's root, `remote:`.
    pub fn remote_root(&self) -> (r: String)
        ensures
            r@ == self@.remote.push(':'),
    {
        let mut v = chars_of(self.remote.as_str());
        v.push(':');
        string_of(v.as_slice())
    }

    /// The full path handed to rclone.
    pub fn as_rclone(&self) -> (r: String)
        ensures
            r@ == rclone_text(self@),
    {
        let mut v = chars_of(self.remote.as_str());
        v.push(':');
        let p = chars_of(self.path.as_str());
        string_of(concat(v.as_slice(), p.as_slice()).as_slice())
    }

    /// The last segment (file name or last directory name).
    pub fn name(&self) -> (r: Option<&str>)
        ensures
            match r {
                Some(n) => name_of(self@.path) == Some(n@),
                None => name_of(self@.path) == None::<Seq<char>>,
            },
    {
        let p = chars_of(self.path.as_str());
        if p.len() == 0 {
            return None;
        }
        match last_index_of_exec(p.as_slice(), '/') {
            Some(i) => Some(self.path.as_str().substring_char(i + 1, p.len())),
            None => Some(self.path.as_str()),
        }
    }

    pub fn parent(&self) -> (r: Option<RemotePath>)
        ensures
            match r {
                Some(q) => parent_of(self@.path) == Some(q@.path) && q@.remote == self@.remote,
                None => parent_of(self@.path) == None::<Seq<char>>,
            },
    {
        proof {
            use_type_invariant(self);
        }
        let p = chars_of(self.path.as_str());
        if p.len() == 0 {
            return None;
        }
        let up = match last_index_of_exec(p.as_slice(), '/') {
            Some(i) => slice_vec(p.as_slice(), 0, i),
            None => Vec::new(),
        };
        Some(RemotePath { remote: self.remote.clone(), path: string_of(up.as_slice()) })
    }

    /// A child path; `name` must be a single segment (no `/`, `\` or `..`).
    pub fn join(&self, name: &str) -> (r: StorageResult<RemotePath>)
        ensures
            match (r, spec_join(self@.path, name@)) {
                (Ok(q), Ok(p)) => q@.remote == self@.remote && q@.path == p,
                (Err(StorageError::InvalidPath(m)), Err(msg)) => m@ == msg,
                _ => false,
            },
    {
        proof {
            use_type_invariant(self);
        }
        let nv = chars_of(name);
        let t = trim_exec(nv.as_slice());
        let n = trim_char(t.as_slice(), '/');
        if n.len() == 0 {
            return Err(invalid("empty join name"));
        }
        let dots = chars_of("..");
        if contains_exec(n.as_slice(), dots.as_slice()) || has_char_exec(n.as_slice(), '/')
            || has_char_exec(n.as_slice(), '\\') {
            let prefix = chars_of("join name must be a single segment: ");
            let msg = concat(prefix.as_slice(), n.as_slice());
            return Err(StorageError::InvalidPath(string_of(msg.as_slice())));
        }
        let p = chars_of(self.path.as_str());
        let joined = if p.len() == 0 {
            n
        } else {
            let mut q = p;
            q.push('/');
            concat(q.as_slice(), n.as_slice())
        };
        Ok(RemotePath { remote: self.remote.clone(), path: string_of(joined.as_slice()) })
    }

    pub fn is_root(&self) -> (r: bool)
        ensures
            r == (self@.path.len() == 0),
    {
        self.path.as_str().is_empty()
    }
}

} // verus!
