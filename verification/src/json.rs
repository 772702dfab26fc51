//! Reading and writing JSON through `serde_json`: single values out of a
//! JSON text, and objects of string values. What the parser finds and what
//! the writer produces are named, not restated: each name is a function of
//! its arguments alone.

use vstd::prelude::*;
use crate::types::pair_views;

verus! {

/// What a JSON pointer reaches in a JSON text.
#[derive(Debug)]
pub enum JsonLeaf {
    /// The text is no JSON.
    Unreadable,
    /// Nothing is at the pointer.
    Absent,
    Null,
    Bool(bool),
    /// A number, with its value when it is a whole number that fits `u64`.
    Number(Option<u64>),
    Text(String),
    Array,
    Object,
}

/// What a JSON pointer reaches, as mathematical values.
pub enum JsonLeafModel {
    Unreadable,
    Absent,
    Null,
    Bool(bool),
    Number(Option<u64>),
    Text(Seq<char>),
    Array,
    Object,
}

/// The values of a leaf.
pub open spec fn leaf_view(l: JsonLeaf) -> JsonLeafModel {
    match l {
        JsonLeaf::Unreadable => JsonLeafModel::Unreadable,
        JsonLeaf::Absent => JsonLeafModel::Absent,
        JsonLeaf::Null => JsonLeafModel::Null,
        JsonLeaf::Bool(b) => JsonLeafModel::Bool(b),
        JsonLeaf::Number(n) => JsonLeafModel::Number(n),
        JsonLeaf::Text(s) => JsonLeafModel::Text(s@),
        JsonLeaf::Array => JsonLeafModel::Array,
        JsonLeaf::Object => JsonLeafModel::Object,
    }
}

/// What `pointer` reaches in the JSON text `doc`, as `serde_json` parses
/// and looks it up.
pub uninterp spec fn json_leaf(doc: Seq<char>, pointer: Seq<char>) -> JsonLeafModel;

/// What `pointer` reaches in `doc`: `serde_json::from_str::<Value>`, then
/// `Value::pointer`, the value told apart by its kind (a number read with
/// `Number::as_u64`). Nothing is stated of what the parser finds beyond its
/// name.
#[verifier::external_body]
pub(crate) fn json_lookup(doc: &str, pointer: &str) -> (r: JsonLeaf)
    ensures
        leaf_view(r) == json_leaf(doc@, pointer@),
{
    match serde_json::from_str::<serde_json::Value>(doc) {
        Err(_) => JsonLeaf::Unreadable,
        Ok(v) => match v.pointer(pointer) {
            None => JsonLeaf::Absent,
            Some(serde_json::Value::Null) => JsonLeaf::Null,
            Some(serde_json::Value::Bool(b)) => JsonLeaf::Bool(*b),
            Some(serde_json::Value::Number(n)) => JsonLeaf::Number(n.as_u64()),
            Some(serde_json::Value::String(s)) => JsonLeaf::Text(s.clone()),
            Some(serde_json::Value::Array(_)) => JsonLeaf::Array,
            Some(serde_json::Value::Object(_)) => JsonLeaf::Object,
        },
    }
}

/// The text of a leaf that is a string.
pub open spec fn leaf_text(l: JsonLeafModel) -> Option<Seq<char>> {
    match l {
        JsonLeafModel::Text(s) => Some(s),
        _ => None,
    }
}

/// The value of a leaf that is a whole number fitting `u64`.
pub open spec fn leaf_u64(l: JsonLeafModel) -> Option<u64> {
    match l {
        JsonLeafModel::Number(n) => n,
        _ => None,
    }
}

/// The value of a leaf that is a boolean.
pub open spec fn leaf_bool(l: JsonLeafModel) -> Option<bool> {
    match l {
        JsonLeafModel::Bool(b) => Some(b),
        _ => None,
    }
}

/// A value is there.
pub open spec fn leaf_present(l: JsonLeafModel) -> bool {
    !(l is Unreadable) && !(l is Absent)
}

/// The string at `pointer` in `doc`, if there is one.
pub fn json_text_at(doc: &str, pointer: &str) -> (r: Option<String>)
    ensures
        crate::text::opt_text(r) == leaf_text(json_leaf(doc@, pointer@)),
{
    match json_lookup(doc, pointer) {
        JsonLeaf::Text(s) => Some(s),
        _ => None,
    }
}

/// The whole number at `pointer` in `doc`, if there is one that fits `u64`.
pub fn json_u64_at(doc: &str, pointer: &str) -> (r: Option<u64>)
    ensures
        r == leaf_u64(json_leaf(doc@, pointer@)),
{
    match json_lookup(doc, pointer) {
        JsonLeaf::Number(n) => n,
        _ => None,
    }
}

/// The boolean at `pointer` in `doc`, if there is one.
pub fn json_bool_at(doc: &str, pointer: &str) -> (r: Option<bool>)
    ensures
        r == leaf_bool(json_leaf(doc@, pointer@)),
{
    match json_lookup(doc, pointer) {
        JsonLeaf::Bool(b) => Some(b),
        _ => None,
    }
}

/// The entries of the JSON text `text` read as an object whose values are
/// all strings, in ascending key order, as `serde_json` reads it into a
/// `BTreeMap<String, String>`; `None` where it is no such object.
pub uninterp spec fn json_string_pairs(text: Seq<char>) -> Option<Seq<(Seq<char>, Seq<char>)>>;

/// `serde_json::from_str::<BTreeMap<String, String>>`, the map then walked in
/// key order into pairs. Nothing is stated of what the parser finds beyond
/// its name.
#[verifier::external_body]
pub(crate) fn read_string_pairs(text: &str) -> (r: Option<Vec<(String, String)>>)
    ensures
        match r {
            Some(v) => json_string_pairs(text@) == Some(pair_views(v@)),
            None => json_string_pairs(text@) is None,
        },
{
    serde_json::from_str::<std::collections::BTreeMap<String, String>>(text).ok().map(|m| m.into_iter().collect())
}

/// The key-to-value map of a list of (key, value) texts, a later pair of a
/// key replacing an earlier.
pub open spec fn text_pairs_map(s: Seq<(Seq<char>, Seq<char>)>) -> Map<Seq<char>, Seq<char>>
    decreases s.len(),
{
    if s.len() == 0 {
        Map::empty()
    } else {
        text_pairs_map(s.drop_last()).insert(s.last().0, s.last().1)
    }
}

/// No key occurs twice among the pairs.
pub open spec fn keys_distinct_texts(s: Seq<(Seq<char>, Seq<char>)>) -> bool {
    forall|i: int, j: int| 0 <= i < s.len() && 0 <= j < s.len() && i != j ==> s[i].0 != s[j].0
}

/// The JSON text that `serde_json` writes for the `BTreeMap<String, String>`
/// collected from `pairs` (a later pair of a key replacing an earlier), or
/// `None` where writing fails.
pub uninterp spec fn json_of_string_pairs(pairs: Seq<(Seq<char>, Seq<char>)>) -> Option<Seq<char>>;

/// `serde_json::to_string` of the `BTreeMap<String, String>` collected from
/// `pairs`. Beyond its name, the text is stated to read back, through
/// `serde_json::from_str`, as the same map when no key occurs twice
/// (`serde_json` escapes every string it writes and unescapes it on
/// reading).
#[verifier::external_body]
pub(crate) fn write_string_pairs(pairs: &Vec<(String, String)>) -> (r: Option<String>)
    ensures
        match r {
            Some(s) => json_of_string_pairs(pair_views(pairs@)) == Some(s@),
            None => json_of_string_pairs(pair_views(pairs@)) is None,
        },
        keys_distinct_texts(pair_views(pairs@)) ==> match r {
            Some(s) => json_string_pairs(s@) matches Some(back)
                && text_pairs_map(back) == text_pairs_map(pair_views(pairs@)),
            None => true,
        },
{
    serde_json::to_string(&pairs.iter().cloned().collect::<std::collections::BTreeMap<String, String>>()).ok()
}

} // verus!
