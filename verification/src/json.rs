//! JSON documents, read one level at a time.
//!
//! `serde_json` parses; a parsed value is handed over as a [`JsonNode`]
//! whose children are their own JSON text, so that a reader descends by
//! parsing a child again. Everything the site rules read of a document is
//! stated over the name [`json_node`].

use crate::weburl::opt_view;
use vstd::prelude::*;

verus! {

/// One parsed JSON value; arrays and objects hold their members as JSON text.
pub enum JsonNode {
    Null,
    Bool(bool),
    /// A number, by what `as_i64` and `as_u64` make of it (both `None` for
    /// a number with a fraction or an exponent).
    Number(Option<i64>, Option<u64>),
    Str(String),
    Array(Vec<String>),
    /// Members in key order, each key once.
    Object(Vec<(String, String)>),
}

pub enum NodeView {
    Null,
    Bool(bool),
    Number(Option<i64>, Option<u64>),
    Str(Seq<char>),
    Array(Seq<Seq<char>>),
    Object(Seq<(Seq<char>, Seq<char>)>),
}

impl View for JsonNode {
    type V = NodeView;

    open spec fn view(&self) -> NodeView {
        match self {
            JsonNode::Null => NodeView::Null,
            JsonNode::Bool(b) => NodeView::Bool(*b),
            JsonNode::Number(i, u) => NodeView::Number(*i, *u),
            JsonNode::Str(s) => NodeView::Str(s@),
            JsonNode::Array(items) => NodeView::Array(items@.map_values(|t: String| t@)),
            JsonNode::Object(members) => NodeView::Object(
                members@.map_values(|m: (String, String)| (m.0@, m.1@)),
            ),
        }
    }
}

/// What `serde_json::from_str::<serde_json::Value>` makes of a text, one
/// level deep (members as the JSON text `Value::to_string` gives them), or
/// `None` where it reports an error.
pub uninterp spec fn json_node(text: Seq<char>) -> Option<NodeView>;

/// `serde_json::from_str::<serde_json::Value>`, with the top level of the
/// value read out: a number by `Number::as_i64` and `Number::as_u64`, the
/// members of an array or object by `Value::to_string`. Only the name
/// `json_node` ties the result to the text; nothing is stated of JSON itself.
#[verifier::external_body]
fn parse_json_node(text: &str) -> (r: Option<JsonNode>)
    ensures
        match r {
            Some(n) => json_node(text@) == Some(n@),
            None => json_node(text@) is None,
        },
{
    serde_json::from_str::<serde_json::Value>(text).ok().map(|v| match v {
        serde_json::Value::Null => JsonNode::Null,
        serde_json::Value::Bool(b) => JsonNode::Bool(b),
        serde_json::Value::Number(n) => JsonNode::Number(n.as_i64(), n.as_u64()),
        serde_json::Value::String(s) => JsonNode::Str(s),
        serde_json::Value::Array(a) => JsonNode::Array(a.iter().map(|x| x.to_string()).collect()),
        serde_json::Value::Object(o) => JsonNode::Object(
            o.into_iter().map(|(k, x)| (k, x.to_string())).collect(),
        ),
    })
}

/// The member of `members` under `key` (the first, should there be two).
pub open spec fn lookup(members: Seq<(Seq<char>, Seq<char>)>, key: Seq<char>) -> Option<Seq<char>>
    decreases members.len(),
{
    if members.len() == 0 {
        None
    } else if members[0].0 == key {
        Some(members[0].1)
    } else {
        lookup(members.drop_first(), key)
    }
}

/// `Value::get(key)`: the member under `key` of an object, as JSON text.
pub open spec fn jget(text: Seq<char>, key: Seq<char>) -> Option<Seq<char>> {
    match json_node(text) {
        Some(NodeView::Object(members)) => lookup(members, key),
        _ => None,
    }
}

/// `Value::as_str`.
pub open spec fn jstr(text: Seq<char>) -> Option<Seq<char>> {
    match json_node(text) {
        Some(NodeView::Str(s)) => Some(s),
        _ => None,
    }
}

/// `Value::as_array`, members as JSON text.
pub open spec fn jarray(text: Seq<char>) -> Option<Seq<Seq<char>>> {
    match json_node(text) {
        Some(NodeView::Array(items)) => Some(items),
        _ => None,
    }
}

/// `Value::as_i64`.
pub open spec fn ji64(text: Seq<char>) -> Option<i64> {
    match json_node(text) {
        Some(NodeView::Number(i, _)) => i,
        _ => None,
    }
}

/// `Value::as_u64`.
pub open spec fn ju64(text: Seq<char>) -> Option<u64> {
    match json_node(text) {
        Some(NodeView::Number(_, u)) => u,
        _ => None,
    }
}

/// `get(key)` on a value that may be missing.
pub open spec fn jget_opt(text: Option<Seq<char>>, key: Seq<char>) -> Option<Seq<char>> {
    match text {
        Some(t) => jget(t, key),
        None => None,
    }
}

/// `get(key).and_then(as_str).unwrap_or("")`.
pub open spec fn str_or_empty(text: Seq<char>, key: Seq<char>) -> Seq<char> {
    match jget(text, key) {
        Some(m) => match jstr(m) {
            Some(s) => s,
            None => Seq::empty(),
        },
        None => Seq::empty(),
    }
}

pub fn json_get(text: &str, key: &str) -> (r: Option<String>)
    ensures
        opt_view(r) == jget(text@, key@),
{
    match parse_json_node(text) {
        Some(JsonNode::Object(members)) => {
            let k = key.to_owned();
            let ghost mv = members@.map_values(|m: (String, String)| (m.0@, m.1@));
            let mut i: usize = 0;
            assert(mv.skip(0) =~= mv);
            while i < members.len()
                invariant
                    i <= members.len(),
                    mv == members@.map_values(|m: (String, String)| (m.0@, m.1@)),
                    k@ == key@,
                    json_node(text@) == Some(NodeView::Object(mv)),
                    lookup(mv.skip(i as int), key@) == lookup(mv, key@),
                decreases members.len() - i,
            {
                assert(mv.skip(i as int).drop_first() =~= mv.skip(i + 1));
                assert(mv.skip(i as int)[0] == mv[i as int]);
                assert(mv[i as int] == (members@[i as int].0@, members@[i as int].1@));
                if members[i].0 == k {
                    return Some(members[i].1.clone());
                }
                i = i + 1;
            }
            assert(mv.skip(i as int) =~= Seq::<(Seq<char>, Seq<char>)>::empty());
            None
        },
        _ => None,
    }
}

pub fn json_str(text: &str) -> (r: Option<String>)
    ensures
        opt_view(r) == jstr(text@),
{
    match parse_json_node(text) {
        Some(JsonNode::Str(s)) => Some(s),
        _ => None,
    }
}

pub fn json_array(text: &str) -> (r: Option<Vec<String>>)
    ensures
        match r {
            Some(v) => jarray(text@) == Some(v@.map_values(|t: String| t@)),
            None => jarray(text@) is None,
        },
{
    match parse_json_node(text) {
        Some(JsonNode::Array(items)) => Some(items),
        _ => None,
    }
}

pub fn json_i64(text: &str) -> (r: Option<i64>)
    ensures
        r == ji64(text@),
{
    match parse_json_node(text) {
        Some(JsonNode::Number(i, _)) => i,
        _ => None,
    }
}

pub fn json_u64(text: &str) -> (r: Option<u64>)
    ensures
        r == ju64(text@),
{
    match parse_json_node(text) {
        Some(JsonNode::Number(_, u)) => u,
        _ => None,
    }
}

/// `get(key).and_then(as_str).unwrap_or("")`.
pub fn json_str_or_empty(text: &str, key: &str) -> (r: String)
    ensures
        r@ == str_or_empty(text@, key@),
{
    match json_get(text, key) {
        Some(m) => match json_str(m.as_str()) {
            Some(s) => s,
            None => String::new(),
        },
        None => String::new(),
    }
}

/// Whether the text is JSON at all.
pub fn json_parses(text: &str) -> (b: bool)
    ensures
        b == (json_node(text@) is Some),
{
    parse_json_node(text).is_some()
}

} // verus!
