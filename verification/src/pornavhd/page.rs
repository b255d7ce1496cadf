//! The post page: finding the embedded player.

use crate::order::{
    lemma_lex_antisymmetric, lemma_lex_reflexive, lemma_lex_total, lemma_lex_transitive, lex_le,
    lex_le_exec,
};
use crate::pattern::{ci_lit_at, ci_lit_at_exec, run_end, run_end_exec, Class};
use crate::text::{chars_of, concat, contains, contains_exec, lower, lower_exec, slice_vec, string_of};
use crate::weburl::{opt_view, parse_url, url_parse};
use vstd::prelude::*;

verus! {

#[derive(Debug, Clone, Copy, PartialEq, Eq, Structural)]
pub enum EmbedError {
    /// The post page holds no `/e/` player URL.
    NoEmbed,
    /// The player URL does not parse.
    InvalidUrl,
    /// The player URL has no host.
    NoHost,
}

impl EmbedError {
    pub open spec fn spec_message(self) -> Seq<char> {
        match self {
            EmbedError::NoEmbed => "no /e/ embed URL in post HTML (page structure changed?)"@,
            EmbedError::InvalidUrl => "embed url"@,
            EmbedError::NoHost => "embed host"@,
        }
    }

    pub fn message(&self) -> (m: String)
        ensures
            m@ == self.spec_message(),
    {
        match self {
            EmbedError::NoEmbed => String::from_str(
                "no /e/ embed URL in post HTML (page structure changed?)",
            ),
            EmbedError::InvalidUrl => String::from_str("embed url"),
            EmbedError::NoHost => String::from_str("embed host"),
        }
    }
}

/// Where a match of `(?i)https?://[a-z0-9._-]+/e/[A-Za-z0-9]+` that starts
/// at `p` ends; `-1` when none starts there.
pub open spec fn embed_end(u: Seq<char>, p: int) -> int {
    let q = if ci_lit_at(u, p, "https://"@) {
        p + 8
    } else if ci_lit_at(u, p, "http://"@) {
        p + 7
    } else {
        -1
    };
    let h = run_end(u, q, Class::CiHost);
    let c = h + 3;
    let e = run_end(u, c, Class::CiAlnum);
    if q >= 0 && h > q && ci_lit_at(u, h, "/e/"@) && e > c {
        e
    } else {
        -1
    }
}

/// The successive matches of the player-URL pattern from `from` on, as
/// `find_iter` reports them.
pub open spec fn embed_finds(u: Seq<char>, from: int) -> Seq<Seq<char>>
    decreases u.len() - from,
{
    if from < 0 || from >= u.len() {
        Seq::empty()
    } else {
        let e = embed_end(u, from);
        if from < e <= u.len() {
            seq![u.subrange(from, e)] + embed_finds(u, e)
        } else {
            embed_finds(u, from + 1)
        }
    }
}

/// The player URLs of a post page.
pub open spec fn embed_candidates(html: Seq<char>) -> Seq<Seq<char>> {
    embed_finds(html, 0)
}

/// How much a player host is preferred: `recordplay`, `streamhg`, `dood`,
/// `filemoon`, `voe`, then any other (ASCII case ignored).
pub open spec fn embed_rank(c: Seq<char>) -> int {
    let l = lower(c);
    if contains(l, "recordplay"@) {
        0
    } else if contains(l, "streamhg"@) {
        1
    } else if contains(l, "dood"@) {
        2
    } else if contains(l, "filemoon"@) {
        3
    } else if contains(l, "voe"@) {
        4
    } else {
        5
    }
}

/// `u` is the player URL chosen among `cands`: one of the best-ranked,
/// and the least of those as a string.
pub open spec fn embed_pick(cands: Seq<Seq<char>>, u: Seq<char>) -> bool {
    &&& cands.contains(u)
    &&& forall|c: Seq<char>|
        #![trigger cands.contains(c)]
        cands.contains(c) ==> embed_rank(u) < embed_rank(c) || (embed_rank(u) == embed_rank(c)
            && lex_le(u, c))
}

/// At most one candidate is the chosen player URL.
pub proof fn lemma_embed_pick_unique(cands: Seq<Seq<char>>, a: Seq<char>, b: Seq<char>)
    requires
        embed_pick(cands, a),
        embed_pick(cands, b),
    ensures
        a == b,
{
    assert(cands.contains(b));
    assert(cands.contains(a));
    lemma_lex_antisymmetric(a, b);
}

fn embed_end_exec(u: &[char], p: usize) -> (r: Option<usize>)
    requires
        p <= u.len(),
    ensures
        match r {
            Some(e) => e == embed_end(u@, p as int) && p < e <= u.len(),
            None => embed_end(u@, p as int) == -1,
        },
{
    let https = chars_of("https://");
    let http = chars_of("http://");
    proof {
        reveal_strlit("https://");
        reveal_strlit("http://");
    }
    let q: usize = if ci_lit_at_exec(u, p, https.as_slice()) {
        p + 8
    } else if ci_lit_at_exec(u, p, http.as_slice()) {
        p + 7
    } else {
        return None;
    };
    let h = run_end_exec(u, q, Class::CiHost);
    let slash_e = chars_of("/e/");
    if !(h > q && ci_lit_at_exec(u, h, slash_e.as_slice())) {
        return None;
    }
    proof {
        reveal_strlit("/e/");
    }
    let c = h + 3;
    let e = run_end_exec(u, c, Class::CiAlnum);
    if e > c {
        Some(e)
    } else {
        None
    }
}

fn embed_rank_exec(c: &[char]) -> (r: usize)
    ensures
        r == embed_rank(c@),
{
    let l = lower_exec(c);
    let hosts = [
        chars_of("recordplay"),
        chars_of("streamhg"),
        chars_of("dood"),
        chars_of("filemoon"),
        chars_of("voe"),
    ];
    if contains_exec(l.as_slice(), hosts[0].as_slice()) {
        0
    } else if contains_exec(l.as_slice(), hosts[1].as_slice()) {
        1
    } else if contains_exec(l.as_slice(), hosts[2].as_slice()) {
        2
    } else if contains_exec(l.as_slice(), hosts[3].as_slice()) {
        3
    } else if contains_exec(l.as_slice(), hosts[4].as_slice()) {
        4
    } else {
        5
    }
}

/// Finds the player URL (`.../e/FILECODE`) in a post page: of the matches,
/// the best-ranked host, and the least URL as a string among those.
pub fn find_embed_url(post_html: &str) -> (r: Result<String, EmbedError>)
    ensures
        match r {
            Ok(u) => embed_pick(embed_candidates(post_html@), u@),
            Err(e) => e == EmbedError::NoEmbed && embed_candidates(post_html@).len() == 0,
        },
{
    let u = chars_of(post_html);
    let ghost all = embed_finds(u@, 0);
    let ghost mut found: Seq<Seq<char>> = Seq::empty();
    let mut best: Option<Vec<char>> = None;
    let mut best_rank: usize = 0;
    let mut i: usize = 0;
    while i < u.len()
        invariant
            i <= u.len(),
            all == embed_finds(u@, 0),
            all == found + embed_finds(u@, i as int),
            match best {
                Some(b) => embed_pick(found, b@) && best_rank == embed_rank(b@),
                None => found.len() == 0,
            },
        decreases u.len() - i,
    {
        match embed_end_exec(u.as_slice(), i) {
            Some(e) => {
                let c = slice_vec(u.as_slice(), i, e);
                let rank = embed_rank_exec(c.as_slice());
                let ghost old_found = found;
                proof {
                    found = found.push(c@);
                    assert(embed_finds(u@, i as int) == seq![c@] + embed_finds(u@, e as int));
                    assert(all == found + embed_finds(u@, e as int));
                }
                match best {
                    None => {
                        proof {
                            lemma_lex_reflexive(c@);
                            assert forall|d: Seq<char>| #[trigger] found.contains(d) implies d
                                == c@ by {
                                if found.contains(d) {
                                    let k = choose|k: int| 0 <= k < found.len() && found[k] == d;
                                    assert(k == 0);
                                }
                            }
                            assert(found[0] == c@);
                        }
                        best = Some(c);
                        best_rank = rank;
                    },
                    Some(b) => {
                        let better = rank < best_rank || (rank == best_rank && !lex_le_exec(
                            b.as_slice(),
                            c.as_slice(),
                        ));
                        proof {
                            lemma_lex_reflexive(c@);
                            lemma_lex_total(b@, c@);
                            assert forall|d: Seq<char>| #[trigger] found.contains(d) implies d
                                == c@ || old_found.contains(d) by {
                                if found.contains(d) {
                                    let k = choose|k: int| 0 <= k < found.len() && found[k] == d;
                                    if k < old_found.len() {
                                        assert(old_found[k] == d);
                                    }
                                }
                            }
                            assert(found[found.len() - 1] == c@);
                            if better {
                                assert forall|d: Seq<char>| #[trigger]
                                    found.contains(d) implies embed_rank(c@) < embed_rank(d) || (
                                embed_rank(c@) == embed_rank(d) && lex_le(c@, d)) by {
                                    if d != c@ {
                                        assert(old_found.contains(d));
                                        if embed_rank(c@) == embed_rank(b@) && embed_rank(b@)
                                            == embed_rank(d) && lex_le(b@, d) {
                                            lemma_lex_transitive(c@, b@, d);
                                        }
                                    }
                                }
                            } else {
                                assert forall|d: Seq<char>| #[trigger]
                                    found.contains(d) implies embed_rank(b@) < embed_rank(d) || (
                                embed_rank(b@) == embed_rank(d) && lex_le(b@, d)) by {
                                    if d != c@ {
                                        assert(old_found.contains(d));
                                    }
                                }
                                let k = choose|k: int| 0 <= k < old_found.len() && old_found[k] == b@;
                                assert(found[k] == b@);
                            }
                        }
                        if better {
                            best = Some(c);
                            best_rank = rank;
                        } else {
                            best = Some(b);
                        }
                    },
                }
                i = e;
            },
            None => {
                assert(embed_finds(u@, i as int) == embed_finds(u@, i + 1));
                i = i + 1;
            },
        }
    }
    assert(embed_finds(u@, i as int) =~= Seq::<Seq<char>>::empty());
    assert(found =~= all);
    match best {
        Some(b) => Ok(string_of(b.as_slice())),
        None => Err(EmbedError::NoEmbed),
    }
}

/// `{scheme}://{host}` of a URL.
pub open spec fn spec_embed_origin(embed_url: Seq<char>) -> Result<Seq<char>, EmbedError> {
    match url_parse(embed_url) {
        None => Err(EmbedError::InvalidUrl),
        Some(v) => match v.host {
            Some(h) => Ok(v.scheme + "://"@ + h),
            None => Err(EmbedError::NoHost),
        },
    }
}

/// The origin (`{scheme}://{host}`) of the player URL.
pub fn embed_origin(embed_url: &str) -> (r: Result<String, EmbedError>)
    ensures
        match r {
            Ok(o) => spec_embed_origin(embed_url@) == Ok::<Seq<char>, EmbedError>(o@),
            Err(e) => spec_embed_origin(embed_url@) == Err::<Seq<char>, EmbedError>(e),
        },
{
    let u = match parse_url(embed_url) {
        Some(u) => u,
        None => return Err(EmbedError::InvalidUrl),
    };
    match u.host {
        Some(h) => {
            let s = chars_of(u.scheme.as_str());
            let sep = chars_of("://");
            let hv = chars_of(h.as_str());
            let a = concat(s.as_slice(), sep.as_slice());
            Ok(string_of(concat(a.as_slice(), hv.as_slice()).as_slice()))
        },
        None => Err(EmbedError::NoHost),
    }
}

} // verus!
