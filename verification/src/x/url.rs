//! X / Twitter status URLs.

use crate::pattern::{
    ci_lit_at, ci_lit_at_exec, class_has, class_pred, lit_at, lit_at_exec, no_newline_from,
    no_newline_from_exec, run_end, run_end_exec, Class,
};
use crate::text::{
    chars_of, ci_char, concat, is_nd, is_nd_exec, lower, lower_exec, occurs_at_exec, starts_with,
    starts_with_exec, string_of, trim, trim_exec,
};
use crate::weburl::opt_view;
use vstd::prelude::*;

verus! {

/// A status id, and the screen name when the URL path has one.
#[derive(Debug, Clone, PartialEq, Eq)]
pub struct StatusRef {
    pub id: String,
    pub user: Option<String>,
}

#[derive(Debug, Clone, PartialEq, Eq)]
pub enum StatusError {
    /// The input is neither a status URL nor a bare id; holds the input.
    NotStatusUrl(String),
}

impl StatusError {
    pub fn message(&self) -> (m: String)
        ensures
            self matches StatusError::NotStatusUrl(i) && m@ == "not an X/Twitter status URL: "@
                + i@,
    {
        match self {
            StatusError::NotStatusUrl(i) => {
                let v = chars_of(i.as_str());
                crate::text::lit_then("not an X/Twitter status URL: ", v.as_slice())
            },
        }
    }
}

/// Where the host part of a status URL ends, after its `/`:
/// `https?://(?:www\.)?(?:x\.com|twitter\.com|mobile\.twitter\.com)/`,
/// case-insensitively; `-1` when it does not match.
pub open spec fn status_host_end(u: Seq<char>) -> int {
    let p0 = if ci_lit_at(u, 0, "https://"@) {
        "https://"@.len() as int
    } else if ci_lit_at(u, 0, "http://"@) {
        "http://"@.len() as int
    } else {
        -1
    };
    let p1 = if ci_lit_at(u, p0, "www."@) {
        p0 + "www."@.len()
    } else {
        p0
    };
    if p0 < 0 {
        -1
    } else if ci_lit_at(u, p1, "x.com/"@) {
        p1 + "x.com/"@.len()
    } else if ci_lit_at(u, p1, "twitter.com/"@) {
        p1 + "twitter.com/"@.len()
    } else if ci_lit_at(u, p1, "mobile.twitter.com/"@) {
        p1 + "mobile.twitter.com/"@.len()
    } else {
        -1
    }
}

/// The `(user, id)` captures of the whole-string match of
/// `(?ix)^https?://(?:www\.)?(?:x\.com|twitter\.com|mobile\.twitter\.com)
/// /(?P<user>[A-Za-z0-9_]+)/status(?:es)?/(?P<id>\d+)(?:[/?\#].*)?$`.
pub open spec fn status_match(u: Seq<char>) -> Option<(Seq<char>, Seq<char>)> {
    let p2 = status_host_end(u);
    let e = run_end(u, p2, Class::CiWord);
    let p4 = e + "/status"@.len();
    let p5 = if ci_lit_at(u, p4, "es/"@) {
        p4 + "es/"@.len()
    } else {
        p4 + 1
    };
    let d = run_end(u, p5, Class::Digit);
    if p2 >= 0 && e > p2 && ci_lit_at(u, e, "/status"@) && (ci_lit_at(u, p4, "es/"@) || lit_at(
        u,
        p4,
        "/"@,
    )) && d > p5 && (d == u.len() || ((u[d] == '/' || u[d] == '?' || u[d] == '#')
        && no_newline_from(u, d + 1))) {
        Some((u.subrange(p2, e), u.subrange(p5, d)))
    } else {
        None
    }
}

/// A bare status id: `^\d{5,25}$`.
pub open spec fn is_bare_id(s: Seq<char>) -> bool {
    5 <= s.len() <= 25 && forall|i: int| 0 <= i < s.len() ==> is_nd(#[trigger] s[i])
}

/// The input as a URL: bare `x.com/...` and `twitter.com/...` get `https://`.
pub open spec fn status_url_text(s: Seq<char>) -> Seq<char> {
    if starts_with(s, "http://"@) || starts_with(s, "https://"@) {
        s
    } else if starts_with(s, "x.com/"@) || starts_with(s, "twitter.com/"@) {
        "https://"@ + s
    } else {
        s
    }
}

/// The `(id, user)` a status input names, if any. Screen names `i` and
/// `intent` (any ASCII case) are path words, not users.
pub open spec fn spec_status_input(input: Seq<char>) -> Option<(Seq<char>, Option<Seq<char>>)> {
    let s = trim(input);
    if is_bare_id(s) {
        Some((s, None))
    } else {
        match status_match(status_url_text(s)) {
            Some((user, id)) => Some(
                (
                    id,
                    if lower(user) == "i"@ || lower(user) == "intent"@ {
                        None
                    } else {
                        Some(user)
                    },
                ),
            ),
            None => None,
        }
    }
}

fn status_host_end_exec(u: &[char]) -> (r: Option<usize>)
    ensures
        match r {
            Some(p) => p == status_host_end(u@) && p <= u.len(),
            None => status_host_end(u@) < 0,
        },
{
    proof {
        assert(u@.len() == u.len());
    }
    let https = chars_of("https://");
    let http = chars_of("http://");
    let p0: usize = if ci_lit_at_exec(u, 0, https.as_slice()) {
        https.len()
    } else if ci_lit_at_exec(u, 0, http.as_slice()) {
        http.len()
    } else {
        return None;
    };
    let www = chars_of("www.");
    let p1: usize = if ci_lit_at_exec(u, p0, www.as_slice()) {
        p0 + www.len()
    } else {
        p0
    };
    let x = chars_of("x.com/");
    let tw = chars_of("twitter.com/");
    let mtw = chars_of("mobile.twitter.com/");
    if ci_lit_at_exec(u, p1, x.as_slice()) {
        Some(p1 + x.len())
    } else if ci_lit_at_exec(u, p1, tw.as_slice()) {
        Some(p1 + tw.len())
    } else if ci_lit_at_exec(u, p1, mtw.as_slice()) {
        Some(p1 + mtw.len())
    } else {
        None
    }
}

fn status_match_exec(u: &[char]) -> (r: Option<(Vec<char>, Vec<char>)>)
    ensures
        match r {
            Some((a, b)) => status_match(u@) == Some((a@, b@)),
            None => status_match(u@) is None,
        },
{
    let p2 = match status_host_end_exec(u) {
        Some(p) => p,
        None => return None,
    };
    let e = run_end_exec(u, p2, Class::CiWord);
    let status = chars_of("/status");
    if !(e > p2 && ci_lit_at_exec(u, e, status.as_slice())) {
        return None;
    }
    let p4 = e + status.len();
    let es = chars_of("es/");
    let slash = chars_of("/");
    let p5 = if ci_lit_at_exec(u, p4, es.as_slice()) {
        p4 + es.len()
    } else if lit_at_exec(u, p4, slash.as_slice()) {
        proof {
            reveal_strlit("/");
        }
        p4 + 1
    } else {
        return None;
    };
    let d = run_end_exec(u, p5, Class::Digit);
    if !(d > p5) {
        return None;
    }
    if d < u.len() {
        let c = u[d];
        if !((c == '/' || c == '?' || c == '#') && no_newline_from_exec(u, d + 1)) {
            return None;
        }
    }
    let user = crate::text::slice_vec(u, p2, e);
    let id = crate::text::slice_vec(u, p5, d);
    Some((user, id))
}

fn is_bare_id_exec(s: &[char]) -> (b: bool)
    ensures
        b == is_bare_id(s@),
{
    if s.len() < 5 || s.len() > 25 {
        return false;
    }
    let mut i: usize = 0;
    while i < s.len()
        invariant
            i <= s.len(),
            forall|j: int| 0 <= j < i ==> is_nd(#[trigger] s@[j]),
        decreases s.len() - i,
    {
        if !is_nd_exec(s[i]) {
            return false;
        }
        i = i + 1;
    }
    true
}

/// What a parsed status names: a non-empty run of (Unicode) decimal digits
/// as the id, and, when there is a screen name, a non-empty run of
/// `(?i)[A-Za-z0-9_]` characters other than `i` and `intent`.
pub proof fn lemma_status_input_shape(input: Seq<char>)
    ensures
        spec_status_input(input) matches Some((id, user)) ==> {
            &&& id.len() > 0
            &&& forall|k: int| 0 <= k < id.len() ==> is_nd(#[trigger] id[k])
            &&& user matches Some(u) ==> {
                &&& u.len() > 0
                &&& forall|k: int| 0 <= k < u.len() ==> class_has(Class::CiWord, #[trigger] u[k])
                &&& lower(u) != "i"@
                &&& lower(u) != "intent"@
            }
        },
{
    let s = trim(input);
    if !is_bare_id(s) {
        let u = status_url_text(s);
        if let Some((user, id)) = status_match(u) {
            let p2 = status_host_end(u);
            let e = run_end(u, p2, Class::CiWord);
            let p4 = e + "/status"@.len();
            let p5 = if ci_lit_at(u, p4, "es/"@) {
                p4 + "es/"@.len()
            } else {
                p4 + 1
            };
            let d = run_end(u, p5, Class::Digit);
            let su = u.subrange(p2, u.len() as int);
            crate::text::lemma_lead_len_bound(su, class_pred(Class::CiWord));
            assert forall|k: int| 0 <= k < user.len() implies class_has(
                Class::CiWord,
                #[trigger] user[k],
            ) by {
                assert(user[k] == su[k]);
                assert(class_pred(Class::CiWord)(su[k]));
            }
            reveal_strlit("es/");
            reveal_strlit("/");
            assert(0 <= p5 <= u.len());
            let sd = u.subrange(p5, u.len() as int);
            crate::text::lemma_lead_len_bound(sd, class_pred(Class::Digit));
            assert forall|k: int| 0 <= k < id.len() implies is_nd(#[trigger] id[k]) by {
                assert(id[k] == sd[k]);
                assert(class_pred(Class::Digit)(sd[k]));
            }
        }
    }
}

/// A screen name of the status pattern, written in ASCII.
pub open spec fn ascii_screen_name(u: Seq<char>) -> bool {
    u.len() > 0 && forall|i: int|
        0 <= i < u.len() ==> ('0' <= #[trigger] u[i] && u[i] <= '9') || ('a' <= u[i] && u[i] <= 'z')
            || ('A' <= u[i] && u[i] <= 'Z') || u[i] == '_'
}

/// A status id written in ASCII digits.
pub open spec fn ascii_status_id(d: Seq<char>) -> bool {
    d.len() > 0 && forall|i: int| 0 <= i < d.len() ==> '0' <= #[trigger] d[i] && d[i] <= '9'
}

proof fn lemma_https_x_status(u: Seq<char>, d: Seq<char>)
    requires
        ascii_screen_name(u),
        ascii_status_id(d),
    ensures
        status_match("https://x.com/"@ + u + "/status/"@ + d) == Some((u, d)),
        trim("https://x.com/"@ + u + "/status/"@ + d) == "https://x.com/"@ + u + "/status/"@ + d,
        !is_bare_id("https://x.com/"@ + u + "/status/"@ + d),
        status_url_text("https://x.com/"@ + u + "/status/"@ + d) == "https://x.com/"@ + u + "/status/"@
            + d,
{
    reveal_strlit("https://x.com/");
    reveal_strlit("/status/");
    reveal_strlit("https://");
    reveal_strlit("www.");
    reveal_strlit("x.com/");
    reveal_strlit("/status");
    reveal_strlit("es/");
    reveal_strlit("/");
    let pre = "https://x.com/"@;
    let st = "/status/"@;
    let full = pre + u + st + d;
    let ul = u.len() as int;
    let n = full.len() as int;
    assert(n == 22 + ul + d.len());
    assert forall|k: int| 0 <= k < 14 implies full[k] == pre[k] by {}
    assert forall|k: int| 0 <= k < ul implies full[14 + k] == u[k] by {}
    assert forall|k: int| 0 <= k < 8 implies full[14 + ul + k] == st[k] by {}
    assert forall|k: int| 0 <= k < d.len() implies full[22 + ul + k] == d[k] by {}
    // the host
    assert(ci_lit_at(full, 0, "https://"@)) by {
        assert forall|k: int| 0 <= k < 8 implies #[trigger] ci_char(full[0 + k], "https://"@[k]) by {
            assert(full[k] == pre[k]);
        }
    }
    assert(!ci_lit_at(full, 8, "www."@)) by {
        assert(full[8int] == 'x');
        assert(!ci_char(full[8int + 0], "www."@[0]));
    }
    assert(ci_lit_at(full, 8, "x.com/"@)) by {
        assert forall|k: int| 0 <= k < 6 implies #[trigger] ci_char(full[8 + k], "x.com/"@[k]) by {
            assert(full[8 + k] == pre[8 + k]);
        }
    }
    assert(status_host_end(full) == 14);
    // the screen name
    let sub = full.subrange(14, n);
    assert forall|j: int| 0 <= j < ul implies class_pred(Class::CiWord)(#[trigger] sub[j]) by {
        assert(sub[j] == u[j]);
    }
    assert(sub[ul] == '/');
    crate::text::lemma_lead_len(sub, class_pred(Class::CiWord), ul);
    let e = 14 + ul;
    assert(run_end(full, 14, Class::CiWord) == e);
    assert(ci_lit_at(full, e, "/status"@)) by {
        assert forall|k: int| 0 <= k < 7 implies #[trigger] ci_char(full[e + k], "/status"@[k]) by {
            assert(full[e + k] == st[k]);
        }
    }
    let p4 = e + 7;
    assert(full[p4] == '/');
    assert(!ci_lit_at(full, p4, "es/"@)) by {
        assert(!ci_char(full[p4 + 0], "es/"@[0]));
    }
    assert(lit_at(full, p4, "/"@)) by {
        assert(full.subrange(p4, p4 + 1) =~= "/"@);
    }
    let p5 = p4 + 1;
    // the id
    let sd = full.subrange(p5, n);
    assert forall|j: int| 0 <= j < d.len() implies class_pred(Class::Digit)(#[trigger] sd[j]) by {
        assert(sd[j] == d[j]);
    }
    crate::text::lemma_lead_len(sd, class_pred(Class::Digit), d.len() as int);
    assert(run_end(full, p5, Class::Digit) == n);
    assert(full.subrange(14, e) =~= u);
    assert(full.subrange(p5, n) =~= d);
    // no blanks around, and no bare id
    crate::text::lemma_lead_len(full, crate::text::ws(), 0);
    crate::text::lemma_trail_len(full, crate::text::ws(), 0);
    assert(full[n - 1] == d[d.len() - 1]);
    assert(trim(full) =~= full);
    assert(!is_nd(full[0]));
    assert(starts_with(full, "https://"@)) by {
        assert(full.take(8) =~= "https://"@);
    }
}

proof fn lemma_https_twitter_status(u: Seq<char>, d: Seq<char>)
    requires
        ascii_screen_name(u),
        ascii_status_id(d),
    ensures
        status_match("https://twitter.com/"@ + u + "/status/"@ + d) == Some((u, d)),
        trim("https://twitter.com/"@ + u + "/status/"@ + d) == "https://twitter.com/"@ + u + "/status/"@ + d,
        !is_bare_id("https://twitter.com/"@ + u + "/status/"@ + d),
        status_url_text("https://twitter.com/"@ + u + "/status/"@ + d) == "https://twitter.com/"@ + u + "/status/"@
            + d,
{
    reveal_strlit("https://twitter.com/");
    reveal_strlit("twitter.com/");
    reveal_strlit("/status/");
    reveal_strlit("https://");
    reveal_strlit("www.");
    reveal_strlit("x.com/");
    reveal_strlit("/status");
    reveal_strlit("es/");
    reveal_strlit("/");
    let pre = "https://twitter.com/"@;
    let st = "/status/"@;
    let full = pre + u + st + d;
    let ul = u.len() as int;
    let n = full.len() as int;
    assert(n == 28 + ul + d.len());
    assert forall|k: int| 0 <= k < 20 implies full[k] == pre[k] by {}
    assert forall|k: int| 0 <= k < ul implies full[20 + k] == u[k] by {}
    assert forall|k: int| 0 <= k < 8 implies full[20 + ul + k] == st[k] by {}
    assert forall|k: int| 0 <= k < d.len() implies full[28 + ul + k] == d[k] by {}
    // the host
    assert(ci_lit_at(full, 0, "https://"@)) by {
        assert forall|k: int| 0 <= k < 8 implies #[trigger] ci_char(full[0 + k], "https://"@[k]) by {
            assert(full[k] == pre[k]);
        }
    }
    assert(!ci_lit_at(full, 8, "www."@)) by {
        assert(full[8int] == 't');
        assert(!ci_char(full[8int + 0], "www."@[0]));
    }
    assert(!ci_lit_at(full, 8, "x.com/"@)) by {
        assert(!ci_char(full[8int + 0], "x.com/"@[0]));
    }
    assert(ci_lit_at(full, 8, "twitter.com/"@)) by {
        assert forall|k: int| 0 <= k < 12 implies #[trigger] ci_char(full[8 + k], "twitter.com/"@[k]) by {
            assert(full[8 + k] == pre[8 + k]);
        }
    }
    assert(status_host_end(full) == 20);
    // the screen name
    let sub = full.subrange(20, n);
    assert forall|j: int| 0 <= j < ul implies class_pred(Class::CiWord)(#[trigger] sub[j]) by {
        assert(sub[j] == u[j]);
    }
    assert(sub[ul] == '/');
    crate::text::lemma_lead_len(sub, class_pred(Class::CiWord), ul);
    let e = 20 + ul;
    assert(run_end(full, 20, Class::CiWord) == e);
    assert(ci_lit_at(full, e, "/status"@)) by {
        assert forall|k: int| 0 <= k < 7 implies #[trigger] ci_char(full[e + k], "/status"@[k]) by {
            assert(full[e + k] == st[k]);
        }
    }
    let p4 = e + 7;
    assert(full[p4] == '/');
    assert(!ci_lit_at(full, p4, "es/"@)) by {
        assert(!ci_char(full[p4 + 0], "es/"@[0]));
    }
    assert(lit_at(full, p4, "/"@)) by {
        assert(full.subrange(p4, p4 + 1) =~= "/"@);
    }
    let p5 = p4 + 1;
    // the id
    let sd = full.subrange(p5, n);
    assert forall|j: int| 0 <= j < d.len() implies class_pred(Class::Digit)(#[trigger] sd[j]) by {
        assert(sd[j] == d[j]);
    }
    crate::text::lemma_lead_len(sd, class_pred(Class::Digit), d.len() as int);
    assert(run_end(full, p5, Class::Digit) == n);
    assert(full.subrange(20, e) =~= u);
    assert(full.subrange(p5, n) =~= d);
    // no blanks around, and no bare id
    crate::text::lemma_lead_len(full, crate::text::ws(), 0);
    crate::text::lemma_trail_len(full, crate::text::ws(), 0);
    assert(full[n - 1] == d[d.len() - 1]);
    assert(trim(full) =~= full);
    assert(!is_nd(full[0]));
    assert(starts_with(full, "https://"@)) by {
        assert(full.take(8) =~= "https://"@);
    }
}

proof fn lemma_status_input_via(s: Seq<char>, full: Seq<char>, u: Seq<char>, d: Seq<char>)
    requires
        trim(s) == s,
        !is_bare_id(s),
        status_url_text(s) == full,
        status_match(full) == Some((u, d)),
        lower(u) != "i"@,
        lower(u) != "intent"@,
    ensures
        spec_status_input(s) == Some((d, Some(u))),
{
}

proof fn lemma_bare_x_address(u: Seq<char>, d: Seq<char>)
    requires
        ascii_status_id(d),
    ensures
        ({
            let bare = "x.com/"@ + u + "/status/"@ + d;
            &&& trim(bare) == bare
            &&& !is_bare_id(bare)
            &&& status_url_text(bare) == "https://x.com/"@ + u + "/status/"@ + d
        }),
{
    reveal_strlit("https://x.com/");
    reveal_strlit("x.com/");
    reveal_strlit("https://");
    reveal_strlit("http://");
    reveal_strlit("/status/");
    let bare = "x.com/"@ + u + "/status/"@ + d;
    assert("https://"@ + bare =~= "https://x.com/"@ + u + "/status/"@ + d);
    assert(bare[0] == 'x');
    assert(!starts_with(bare, "http://"@)) by {
        if starts_with(bare, "http://"@) {
            assert(bare.take(7)[0] == "http://"@[0]);
        }
    }
    assert(!starts_with(bare, "https://"@)) by {
        if starts_with(bare, "https://"@) {
            assert(bare.take(8)[0] == "https://"@[0]);
        }
    }
    assert(starts_with(bare, "x.com/"@)) by {
        assert(bare.take(6) =~= "x.com/"@);
    }
    let n = bare.len() as int;
    crate::text::lemma_lead_len(bare, crate::text::ws(), 0);
    crate::text::lemma_trail_len(bare, crate::text::ws(), 0);
    assert(bare[n - 1] == d[d.len() - 1]);
    assert(trim(bare) =~= bare);
    assert(!is_nd(bare[0]));
}

proof fn lemma_bare_twitter_address(u: Seq<char>, d: Seq<char>)
    requires
        ascii_status_id(d),
    ensures
        ({
            let bare = "twitter.com/"@ + u + "/status/"@ + d;
            &&& trim(bare) == bare
            &&& !is_bare_id(bare)
            &&& status_url_text(bare) == "https://twitter.com/"@ + u + "/status/"@ + d
        }),
{
    reveal_strlit("https://twitter.com/");
    reveal_strlit("twitter.com/");
    reveal_strlit("x.com/");
    reveal_strlit("https://");
    reveal_strlit("http://");
    reveal_strlit("/status/");
    let bare = "twitter.com/"@ + u + "/status/"@ + d;
    assert("https://"@ + bare =~= "https://twitter.com/"@ + u + "/status/"@ + d);
    assert(bare[0] == 't');
    assert(!starts_with(bare, "http://"@)) by {
        if starts_with(bare, "http://"@) {
            assert(bare.take(7)[0] == "http://"@[0]);
        }
    }
    assert(!starts_with(bare, "https://"@)) by {
        if starts_with(bare, "https://"@) {
            assert(bare.take(8)[0] == "https://"@[0]);
        }
    }
    assert(!starts_with(bare, "x.com/"@)) by {
        if starts_with(bare, "x.com/"@) {
            assert(bare.take(6)[0] == "x.com/"@[0]);
        }
    }
    assert(starts_with(bare, "twitter.com/"@)) by {
        assert(bare.take(12) =~= "twitter.com/"@);
    }
    let n = bare.len() as int;
    crate::text::lemma_lead_len(bare, crate::text::ws(), 0);
    crate::text::lemma_trail_len(bare, crate::text::ws(), 0);
    assert(bare[n - 1] == d[d.len() - 1]);
    assert(trim(bare) =~= bare);
    assert(!is_nd(bare[0]));
}

/// An `x.com` or `twitter.com` status address of an ASCII screen name
/// (other than the path words `i` and `intent`) and an ASCII digit id names
/// that status and that user, with or without the `https://` in front.
pub proof fn lemma_x_status_addresses(u: Seq<char>, d: Seq<char>)
    requires
        ascii_screen_name(u),
        ascii_status_id(d),
        lower(u) != "i"@,
        lower(u) != "intent"@,
    ensures
        spec_status_input("https://x.com/"@ + u + "/status/"@ + d) == Some((d, Some(u))),
        spec_status_input("x.com/"@ + u + "/status/"@ + d) == Some((d, Some(u))),
        spec_status_input("https://twitter.com/"@ + u + "/status/"@ + d) == Some((d, Some(u))),
        spec_status_input("twitter.com/"@ + u + "/status/"@ + d) == Some((d, Some(u))),
{
    lemma_https_x_status(u, d);
    let full = "https://x.com/"@ + u + "/status/"@ + d;
    lemma_status_input_via(full, full, u, d);
    lemma_bare_x_address(u, d);
    lemma_status_input_via("x.com/"@ + u + "/status/"@ + d, full, u, d);
    lemma_https_twitter_status(u, d);
    let tfull = "https://twitter.com/"@ + u + "/status/"@ + d;
    lemma_status_input_via(tfull, tfull, u, d);
    lemma_bare_twitter_address(u, d);
    lemma_status_input_via("twitter.com/"@ + u + "/status/"@ + d, tfull, u, d);
}

/// Parses a status URL (`x.com`, `twitter.com`, `mobile.twitter.com`, with or
/// without scheme) or a bare numeric status id.
pub fn parse_status_input(input: &str) -> (r: Result<StatusRef, StatusError>)
    ensures
        match (r, spec_status_input(input@)) {
            (Ok(sr), Some((id, user))) => sr.id@ == id && opt_view(sr.user) == user,
            (Err(StatusError::NotStatusUrl(m)), None) => m@ == input@,
            _ => false,
        },
{
    let v = chars_of(input);
    let s = trim_exec(v.as_slice());
    if is_bare_id_exec(s.as_slice()) {
        return Ok(StatusRef { id: string_of(s.as_slice()), user: None });
    }
    let http = chars_of("http://");
    let https = chars_of("https://");
    let x = chars_of("x.com/");
    let tw = chars_of("twitter.com/");
    let url = if starts_with_exec(s.as_slice(), http.as_slice()) || starts_with_exec(
        s.as_slice(),
        https.as_slice(),
    ) {
        s
    } else if starts_with_exec(s.as_slice(), x.as_slice()) || starts_with_exec(
        s.as_slice(),
        tw.as_slice(),
    ) {
        concat(https.as_slice(), s.as_slice())
    } else {
        s
    };
    match status_match_exec(url.as_slice()) {
        Some((user, id)) => {
            let lu = lower_exec(user.as_slice());
            let i_word = chars_of("i");
            let intent = chars_of("intent");
            let is_i = lu.len() == i_word.len() && occurs_at_exec(lu.as_slice(), i_word.as_slice(), 0);
            let is_intent = lu.len() == intent.len() && occurs_at_exec(
                lu.as_slice(),
                intent.as_slice(),
                0,
            );
            assert(is_i == (lu@ == "i"@)) by {
                if lu@.len() == i_word@.len() {
                    assert(lu@.subrange(0, lu@.len() as int) =~= lu@);
                }
            }
            assert(is_intent == (lu@ == "intent"@)) by {
                if lu@.len() == intent@.len() {
                    assert(lu@.subrange(0, lu@.len() as int) =~= lu@);
                }
            }
            let user = if is_i || is_intent {
                None
            } else {
                Some(string_of(user.as_slice()))
            };
            Ok(StatusRef { id: string_of(id.as_slice()), user })
        },
        None => Err(StatusError::NotStatusUrl(input.to_owned())),
    }
}

} // verus!
