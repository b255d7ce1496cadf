//! The player page's packed script: the HLS links it declares.

use crate::pattern::{lit_at, lit_at_exec, run_end, run_end_exec, Class};
use crate::text::{chars_of, concat, slice_vec, starts_with, starts_with_exec, string_of};
use crate::weburl::opt_view;
use vstd::prelude::*;

verus! {

/// The HLS playlist links of a player, and its duration as written.
#[derive(Debug)]
pub struct HlsLinks {
    pub hls2: Option<String>,
    pub hls3: Option<String>,
    pub hls4: Option<String>,
    pub duration_s: Option<String>,
}

pub struct HlsView {
    pub hls2: Option<Seq<char>>,
    pub hls3: Option<Seq<char>>,
    pub hls4: Option<Seq<char>>,
    pub duration_s: Option<Seq<char>>,
}

impl View for HlsLinks {
    type V = HlsView;

    open spec fn view(&self) -> HlsView {
        HlsView {
            hls2: opt_view(self.hls2),
            hls3: opt_view(self.hls3),
            hls4: opt_view(self.hls4),
            duration_s: opt_view(self.duration_s),
        }
    }
}

#[derive(Debug, Clone, PartialEq, Eq, Structural)]
pub enum HlsError {
    /// No `links = {...}` in the script.
    NoLinks,
    /// The links object names none of `hls2`, `hls3`, `hls4`.
    NoHlsKeys,
    /// No link to choose from.
    NoLink,
}

impl HlsError {
    pub open spec fn spec_message(self) -> Seq<char> {
        match self {
            HlsError::NoLinks => "links= not found after unpack"@,
            HlsError::NoHlsKeys => "links object had no hls keys"@,
            HlsError::NoLink => "no hls2/hls3/hls4 in packer links"@,
        }
    }

    pub fn message(&self) -> (m: String)
        ensures
            m@ == self.spec_message(),
    {
        match self {
            HlsError::NoLinks => String::from_str("links= not found after unpack"),
            HlsError::NoHlsKeys => String::from_str("links object had no hls keys"),
            HlsError::NoLink => String::from_str("no hls2/hls3/hls4 in packer links"),
        }
    }
}

/// A link made absolute against the player's origin.
pub open spec fn spec_absolutize(u: Seq<char>, origin: Seq<char>) -> Seq<char> {
    if starts_with(u, "http://"@) || starts_with(u, "https://"@) {
        u
    } else if starts_with(u, "/"@) {
        origin + u
    } else {
        origin + "/"@ + u
    }
}

fn absolutize(u: &str, origin: &str) -> (r: String)
    ensures
        r@ == spec_absolutize(u@, origin@),
{
    let uv = chars_of(u);
    let ov = chars_of(origin);
    let http = chars_of("http://");
    let https = chars_of("https://");
    let slash = chars_of("/");
    if starts_with_exec(uv.as_slice(), http.as_slice()) || starts_with_exec(
        uv.as_slice(),
        https.as_slice(),
    ) {
        string_of(uv.as_slice())
    } else if starts_with_exec(uv.as_slice(), slash.as_slice()) {
        string_of(concat(ov.as_slice(), uv.as_slice()).as_slice())
    } else {
        let a = concat(ov.as_slice(), slash.as_slice());
        string_of(concat(a.as_slice(), uv.as_slice()).as_slice())
    }
}

/// The playlist to fetch and its key: `hls2` as it is, else `hls3`, else
/// `hls4`, the last two made absolute against the player's origin.
pub open spec fn spec_best(l: HlsView, origin: Seq<char>) -> Option<(Seq<char>, Seq<char>)> {
    match l.hls2 {
        Some(u) => Some((u, "hls2"@)),
        None => match l.hls3 {
            Some(u) => Some((spec_absolutize(u, origin), "hls3"@)),
            None => match l.hls4 {
                Some(u) => Some((spec_absolutize(u, origin), "hls4"@)),
                None => None,
            },
        },
    }
}

/// The preference order: `hls2` when there is one, whatever else there is;
/// then `hls3`, made absolute, whatever `hls4` holds; then `hls4`, made
/// absolute; no playlist when all three are missing.
pub proof fn lemma_best_order(l: HlsView, origin: Seq<char>)
    ensures
        l.hls2 matches Some(u) ==> spec_best(l, origin) == Some((u, "hls2"@)),
        (l.hls2 is None && l.hls3 is Some) ==> spec_best(l, origin) == Some(
            (spec_absolutize(l.hls3->Some_0, origin), "hls3"@),
        ),
        (l.hls2 is None && l.hls3 is None && l.hls4 is Some) ==> spec_best(l, origin) == Some(
            (spec_absolutize(l.hls4->Some_0, origin), "hls4"@),
        ),
        l.hls2 is None && l.hls3 is None && l.hls4 is None ==> spec_best(l, origin) is None,
{
}

impl HlsLinks {
    /// Prefer the absolute CDN link (`hls2`), then `hls3`, then the
    /// origin-relative `hls4`.
    pub fn best(&self, embed_origin: &str) -> (r: Result<(String, &'static str), HlsError>)
        ensures
            match r {
                Ok((u, tag)) => spec_best(self@, embed_origin@) == Some((u@, tag@)),
                Err(e) => e == HlsError::NoLink && spec_best(self@, embed_origin@) is None,
            },
            self.hls2 matches Some(u) ==> (r matches Ok((x, t)) && x@ == u@ && t@ == "hls2"@),
            (self.hls2 is None && self.hls3 is Some) ==> (r matches Ok((x, t)) && x@
                == spec_absolutize(self.hls3->Some_0@, embed_origin@) && t@ == "hls3"@),
            (self.hls2 is None && self.hls3 is None && self.hls4 is Some) ==> (r matches Ok(
                (x, t),
            ) && x@ == spec_absolutize(self.hls4->Some_0@, embed_origin@) && t@ == "hls4"@),
            self.hls2 is None && self.hls3 is None && self.hls4 is None ==> r is Err,
    {
        proof {
            reveal_strlit("hls2");
            reveal_strlit("hls3");
            reveal_strlit("hls4");
        }
        match &self.hls2 {
            Some(u) => {
                return Ok((u.clone(), "hls2"));
            },
            None => {},
        }
        match &self.hls3 {
            Some(u) => {
                return Ok((absolutize(u.as_str(), embed_origin), "hls3"));
            },
            None => {},
        }
        match &self.hls4 {
            Some(u) => Ok((absolutize(u.as_str(), embed_origin), "hls4")),
            None => Err(HlsError::NoLink),
        }
    }
}

// ---------------------------------------------------------------------------
// `links\s*=\s*\{([^;]+)\}`
// ---------------------------------------------------------------------------

/// The last `}` in `u[lo..hi)`, or `lo - 1` when there is none.
pub open spec fn last_close(u: Seq<char>, lo: int, hi: int) -> int
    decreases hi - lo,
{
    if hi <= lo {
        lo - 1
    } else if u[hi - 1] == '}' {
        hi - 1
    } else {
        last_close(u, lo, hi - 1)
    }
}

/// The body captured by a match of `links\s*=\s*\{([^;]+)\}` that starts
/// at `p`, as `(start, end)`; the greedy body runs to the last `}` before
/// the next `;`.
pub open spec fn links_at(u: Seq<char>, p: int) -> Option<(int, int)> {
    let a = run_end(u, p + 5, Class::Space);
    let b = run_end(u, a + 1, Class::Space);
    let r = run_end(u, b + 1, Class::NotSemicolon);
    let t = last_close(u, b + 2, r);
    if lit_at(u, p, "links"@) && a < u.len() && u[a] == '=' && b < u.len() && u[b] == '{' && t
        >= b + 2 {
        Some((b + 1, t))
    } else {
        None
    }
}

/// The leftmost match of the links pattern at or after `from`.
pub open spec fn first_links(u: Seq<char>, from: int) -> Option<(int, int)>
    decreases u.len() - from,
{
    if from < 0 || from >= u.len() {
        None
    } else {
        match links_at(u, from) {
            Some(m) => Some(m),
            None => first_links(u, from + 1),
        }
    }
}

// ---------------------------------------------------------------------------
// `"(hls[234])"\s*:\s*"([^"]+)"`
// ---------------------------------------------------------------------------

/// A match of the pair pattern at `p`: `(digit, value start, value end)`.
pub open spec fn pair_at(u: Seq<char>, p: int) -> Option<(char, int, int)> {
    let a = run_end(u, p + 6, Class::Space);
    let b = run_end(u, a + 1, Class::Space);
    let e = run_end(u, b + 1, Class::NotDoubleQuote);
    if lit_at(u, p, "\"hls"@) && p + 5 < u.len() && ('2' <= u[p + 4] && u[p + 4] <= '4') && u[p
        + 5] == '"' && a < u.len() && u[a] == ':' && b < u.len() && u[b] == '"' && e > b + 1 && e
        < u.len() {
        Some((u[p + 4], b + 1, e))
    } else {
        None
    }
}

/// The pairs that `captures_iter` reports from `from` on, as `(digit, value)`.
pub open spec fn pairs_from(u: Seq<char>, from: int) -> Seq<(char, Seq<char>)>
    decreases u.len() - from,
{
    if from < 0 || from >= u.len() {
        Seq::empty()
    } else {
        match pair_at(u, from) {
            Some((d, s, e)) => if from < e < u.len() {
                seq![(d, u.subrange(s, e))] + pairs_from(u, e + 1)
            } else {
                Seq::empty()
            },
            None => pairs_from(u, from + 1),
        }
    }
}

/// The value of the last pair with digit `d`.
pub open spec fn last_pair(ps: Seq<(char, Seq<char>)>, d: char) -> Option<Seq<char>>
    decreases ps.len(),
{
    if ps.len() == 0 {
        None
    } else if ps.last().0 == d {
        Some(ps.last().1)
    } else {
        last_pair(ps.drop_last(), d)
    }
}

// ---------------------------------------------------------------------------
// `duration\s*:\s*"([0-9.]+)"`
// ---------------------------------------------------------------------------

pub open spec fn duration_at(u: Seq<char>, p: int) -> Option<(int, int)> {
    let a = run_end(u, p + 8, Class::Space);
    let b = run_end(u, a + 1, Class::Space);
    let e = run_end(u, b + 1, Class::DigitOrDot);
    if lit_at(u, p, "duration"@) && a < u.len() && u[a] == ':' && b < u.len() && u[b] == '"' && e
        > b + 1 && e < u.len() && u[e] == '"' {
        Some((b + 1, e))
    } else {
        None
    }
}

pub open spec fn first_duration(u: Seq<char>, from: int) -> Option<Seq<char>>
    decreases u.len() - from,
{
    if from < 0 || from >= u.len() {
        None
    } else {
        match duration_at(u, from) {
            Some((s, e)) => Some(u.subrange(s, e)),
            None => first_duration(u, from + 1),
        }
    }
}

/// The links that an unpacked player script declares.
pub open spec fn spec_extract(js: Seq<char>) -> Result<HlsView, HlsError> {
    match first_links(js, 0) {
        None => Err(HlsError::NoLinks),
        Some((s, e)) => {
            let ps = pairs_from(js.subrange(s, e), 0);
            let l = HlsView {
                hls2: last_pair(ps, '2'),
                hls3: last_pair(ps, '3'),
                hls4: last_pair(ps, '4'),
                duration_s: first_duration(js, 0),
            };
            if l.hls2 is None && l.hls3 is None && l.hls4 is None {
                Err(HlsError::NoHlsKeys)
            } else {
                Ok(l)
            }
        },
    }
}

fn last_close_exec(u: &[char], lo: usize, hi: usize) -> (r: Option<usize>)
    requires
        lo <= hi <= u.len(),
    ensures
        match r {
            Some(t) => t == last_close(u@, lo as int, hi as int) && lo <= t < hi,
            None => last_close(u@, lo as int, hi as int) == lo - 1,
        },
{
    let mut j = hi;
    while j > lo
        invariant
            lo <= j <= hi <= u.len(),
            last_close(u@, lo as int, hi as int) == last_close(u@, lo as int, j as int),
        decreases j,
    {
        if u[j - 1] == '}' {
            return Some(j - 1);
        }
        j = j - 1;
    }
    None
}

fn links_at_exec(u: &[char], p: usize) -> (r: Option<(usize, usize)>)
    requires
        p <= u.len(),
    ensures
        match r {
            Some((s, e)) => links_at(u@, p as int) == Some((s as int, e as int)) && s <= e
                <= u.len(),
            None => links_at(u@, p as int) is None,
        },
{
    let links = chars_of("links");
    if !lit_at_exec(u, p, links.as_slice()) {
        return None;
    }
    proof {
        reveal_strlit("links");
    }
    let a = run_end_exec(u, p + 5, Class::Space);
    if !(a < u.len() && u[a] == '=') {
        return None;
    }
    let b = run_end_exec(u, a + 1, Class::Space);
    if !(b < u.len() && u[b] == '{') {
        return None;
    }
    let r = run_end_exec(u, b + 1, Class::NotSemicolon);
    if r <= b + 1 {
        proof {
            assert(last_close(u@, b + 2, r as int) == b + 1);
        }
        return None;
    }
    match last_close_exec(u, b + 2, r) {
        Some(t) => Some((b + 1, t)),
        None => None,
    }
}

fn first_links_exec(u: &[char]) -> (r: Option<(usize, usize)>)
    ensures
        match r {
            Some((s, e)) => first_links(u@, 0) == Some((s as int, e as int)) && s <= e <= u.len(),
            None => first_links(u@, 0) is None,
        },
{
    let mut p: usize = 0;
    while p < u.len()
        invariant
            p <= u.len(),
            first_links(u@, 0) == first_links(u@, p as int),
        decreases u.len() - p,
    {
        match links_at_exec(u, p) {
            Some(m) => {
                return Some(m);
            },
            None => {},
        }
        p = p + 1;
    }
    None
}

fn pair_at_exec(u: &[char], p: usize) -> (r: Option<(char, usize, usize)>)
    requires
        p <= u.len(),
    ensures
        match r {
            Some((d, s, e)) => pair_at(u@, p as int) == Some((d, s as int, e as int)) && p < s
                <= e < u.len(),
            None => pair_at(u@, p as int) is None,
        },
{
    let q = chars_of("\"hls");
    if !lit_at_exec(u, p, q.as_slice()) {
        return None;
    }
    proof {
        reveal_strlit("\"hls");
    }
    if !(u.len() - p > 5 && '2' <= u[p + 4] && u[p + 4] <= '4' && u[p + 5] == '"') {
        return None;
    }
    let a = run_end_exec(u, p + 6, Class::Space);
    if !(a < u.len() && u[a] == ':') {
        return None;
    }
    let b = run_end_exec(u, a + 1, Class::Space);
    if !(b < u.len() && u[b] == '"') {
        return None;
    }
    let e = run_end_exec(u, b + 1, Class::NotDoubleQuote);
    if e > b + 1 && e < u.len() {
        Some((u[p + 4], b + 1, e))
    } else {
        None
    }
}

fn duration_at_exec(u: &[char], p: usize) -> (r: Option<(usize, usize)>)
    requires
        p <= u.len(),
    ensures
        match r {
            Some((s, e)) => duration_at(u@, p as int) == Some((s as int, e as int)) && s <= e
                <= u.len(),
            None => duration_at(u@, p as int) is None,
        },
{
    let d = chars_of("duration");
    if !lit_at_exec(u, p, d.as_slice()) {
        return None;
    }
    proof {
        reveal_strlit("duration");
    }
    let a = run_end_exec(u, p + 8, Class::Space);
    if !(a < u.len() && u[a] == ':') {
        return None;
    }
    let b = run_end_exec(u, a + 1, Class::Space);
    if !(b < u.len() && u[b] == '"') {
        return None;
    }
    let e = run_end_exec(u, b + 1, Class::DigitOrDot);
    if e > b + 1 && e < u.len() && u[e] == '"' {
        Some((b + 1, e))
    } else {
        None
    }
}

fn first_duration_exec(u: &[char]) -> (r: Option<String>)
    ensures
        opt_view(r) == first_duration(u@, 0),
{
    let mut p: usize = 0;
    while p < u.len()
        invariant
            p <= u.len(),
            first_duration(u@, 0) == first_duration(u@, p as int),
        decreases u.len() - p,
    {
        match duration_at_exec(u, p) {
            Some((s, e)) => {
                return Some(string_of(slice_vec(u, s, e).as_slice()));
            },
            None => {},
        }
        p = p + 1;
    }
    None
}

/// Reads the `hls2`/`hls3`/`hls4` links (the last of each key) out of the
/// `links = {...}` object of an unpacked player script, and the first
/// `duration: "..."`.
pub fn extract_hls_links(unpacked_js: &str) -> (r: Result<HlsLinks, HlsError>)
    ensures
        match r {
            Ok(l) => spec_extract(unpacked_js@) == Ok::<HlsView, HlsError>(l@),
            Err(e) => spec_extract(unpacked_js@) == Err::<HlsView, HlsError>(e),
        },
{
    let js = chars_of(unpacked_js);
    let (s, e) = match first_links_exec(js.as_slice()) {
        Some(m) => m,
        None => return Err(HlsError::NoLinks),
    };
    let body = slice_vec(js.as_slice(), s, e);
    let mut hls2: Option<String> = None;
    let mut hls3: Option<String> = None;
    let mut hls4: Option<String> = None;
    let ghost all = pairs_from(body@, 0);
    let ghost mut seen: Seq<(char, Seq<char>)> = Seq::empty();
    let mut p: usize = 0;
    while p < body.len()
        invariant
            p <= body.len(),
            all == pairs_from(body@, 0),
            all == seen + pairs_from(body@, p as int),
            opt_view(hls2) == last_pair(seen, '2'),
            opt_view(hls3) == last_pair(seen, '3'),
            opt_view(hls4) == last_pair(seen, '4'),
        decreases body.len() - p,
    {
        match pair_at_exec(body.as_slice(), p) {
            Some((d, vs, ve)) => {
                let v = string_of(slice_vec(body.as_slice(), vs, ve).as_slice());
                proof {
                    let old_seen = seen;
                    seen = seen.push((d, v@));
                    assert(seen.drop_last() =~= old_seen);
                    assert(pairs_from(body@, p as int) == seq![(d, v@)] + pairs_from(
                        body@,
                        ve + 1,
                    ));
                    assert(all =~= seen + pairs_from(body@, ve + 1));
                }
                if d == '2' {
                    hls2 = Some(v);
                } else if d == '3' {
                    hls3 = Some(v);
                } else {
                    hls4 = Some(v);
                }
                p = ve + 1;
            },
            None => {
                p = p + 1;
            },
        }
    }
    assert(pairs_from(body@, p as int) =~= Seq::<(char, Seq<char>)>::empty());
    assert(seen =~= all);
    if hls2.is_none() && hls3.is_none() && hls4.is_none() {
        return Err(HlsError::NoHlsKeys);
    }
    let duration_s = first_duration_exec(js.as_slice());
    Ok(HlsLinks { hls2, hls3, hls4, duration_s })
}

} // verus!
