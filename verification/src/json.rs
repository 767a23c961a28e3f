//! Reading JSON documents through `serde_json`.

use vstd::prelude::*;

verus! {

/// `serde_json::Value`, a parsed document. What it holds is [`json_tree`].
#[verifier::external_type_specification]
#[verifier::external_body]
pub struct ExValue(serde_json::Value);

/// A JSON document, as far as it is read here: numbers, by their value as a
/// signed 64-bit integer where they have one, and objects. Everything else,
/// null included, is alike.
pub enum JsonTree {
    Number(Option<i64>),
    Object(Map<Seq<char>, JsonTree>),
    Other,
}

/// What a parsed document holds.
pub uninterp spec fn json_tree(v: serde_json::Value) -> JsonTree;

/// The document that a text spells, or what `serde_json` says is wrong with it.
pub uninterp spec fn json_document(raw: Seq<char>) -> Result<JsonTree, Seq<char>>;

/// The member of an object under a key, and null where there is none.
pub open spec fn json_member(tree: JsonTree, key: Seq<char>) -> JsonTree {
    match tree {
        JsonTree::Object(m) => if m.contains_key(key) {
            m[key]
        } else {
            JsonTree::Other
        },
        _ => JsonTree::Other,
    }
}

/// `serde_json::from_str` into a `Value`: what it returns is a function of the
/// text alone, the text of the error included.
#[verifier::external_body]
pub(crate) fn parse_json(raw: &str) -> (r: Result<serde_json::Value, String>)
    ensures
        match r {
            Ok(v) => json_document(raw@) == Ok::<JsonTree, Seq<char>>(json_tree(v)),
            Err(e) => json_document(raw@) == Err::<JsonTree, Seq<char>>(e@),
        },
{
    serde_json::from_str::<serde_json::Value>(raw).map_err(|e| e.to_string())
}

/// `Value` indexed by a string: the member under that key, and null where the
/// value is no object or has no such key.
#[verifier::external_body]
pub(crate) fn member<'a>(v: &'a serde_json::Value, key: &str) -> (r: &'a serde_json::Value)
    ensures
        json_tree(*r) == json_member(json_tree(*v), key@),
{
    &v[key]
}

/// `entries` lists the members of an object, each key once.
pub open spec fn lists_members(
    entries: Seq<(String, serde_json::Value)>,
    m: Map<Seq<char>, JsonTree>,
) -> bool {
    &&& forall|i: int|
        0 <= i < entries.len() ==> m.contains_key((#[trigger] entries[i]).0@)
            && m[entries[i].0@] == json_tree(entries[i].1)
    &&& forall|key: Seq<char>| #[trigger]
        m.contains_key(key) ==> exists|i: int|
            0 <= i < entries.len() && (#[trigger] entries[i]).0@ == key
    &&& forall|i: int, j: int|
        0 <= i < j < entries.len() ==> (#[trigger] entries[i]).0@ != (#[trigger] entries[j]).0@
}

/// `Value::as_object`, with the members copied out of the map: they are listed
/// for an object, and only for an object.
#[verifier::external_body]
pub(crate) fn members(v: &serde_json::Value) -> (r: Option<Vec<(String, serde_json::Value)>>)
    ensures
        match r {
            Some(entries) => json_tree(*v) is Object && lists_members(
                entries@,
                json_tree(*v)->Object_0,
            ),
            None => !(json_tree(*v) is Object),
        },
{
    v.as_object().map(|m| m.iter().map(|(k, x)| (k.clone(), x.clone())).collect())
}

/// `Value::as_i64`: the value of a number that is a signed 64-bit integer, and
/// nothing otherwise.
#[verifier::external_body]
pub(crate) fn integer(v: &serde_json::Value) -> (r: Option<i64>)
    ensures
        r == match json_tree(*v) {
            JsonTree::Number(n) => n,
            _ => None::<i64>,
        },
{
    v.as_i64()
}

} // verus!
