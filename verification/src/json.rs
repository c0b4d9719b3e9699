//! JSON documents, read through `serde_json`.
use vstd::prelude::*;

verus! {

/// The outside JSON value.
#[verifier::external_type_specification]
#[verifier::external_body]
pub struct ExValue(serde_json::Value);

/// What a JSON value holds, as far as it is ever looked at: integers of up to 64 bits
/// without a sign, strings, arrays and objects. Everything else (null, booleans,
/// negative and fractional numbers) is [`JsonTree::Other`].
pub enum JsonTree {
    Unsigned(u64),
    Text(Seq<char>),
    Array(Seq<JsonTree>),
    Object(Map<Seq<char>, JsonTree>),
    Other,
}

/// What a `serde_json::Value` holds.
pub uninterp spec fn json_tree(value: serde_json::Value) -> JsonTree;

/// What `serde_json::from_slice` makes of a text: the value it holds, or `None` where
/// the text is no JSON document.
pub uninterp spec fn json_document(text: Seq<u8>) -> Option<JsonTree>;

/// The value that an object holds under a key; other values have no members.
pub open spec fn member(tree: JsonTree, key: Seq<char>) -> Option<JsonTree> {
    match tree {
        JsonTree::Object(entries) => if entries.dom().contains(key) {
            Some(entries[key])
        } else {
            None
        },
        _ => None,
    }
}

/// The elements of an array; other values have none.
pub open spec fn elements(tree: JsonTree) -> Option<Seq<JsonTree>> {
    match tree {
        JsonTree::Array(items) => Some(items),
        _ => None,
    }
}

/// The unsigned integer that a value is.
pub open spec fn unsigned(tree: JsonTree) -> Option<u64> {
    match tree {
        JsonTree::Unsigned(n) => Some(n),
        _ => None,
    }
}

/// The elements of the array that an object holds under a key.
pub open spec fn member_elements(tree: JsonTree, key: Seq<char>) -> Option<Seq<JsonTree>> {
    match member(tree, key) {
        Some(t) => elements(t),
        None => None,
    }
}

/// The unsigned integer that an object holds under a key.
pub open spec fn member_unsigned(tree: JsonTree, key: Seq<char>) -> Option<u64> {
    match member(tree, key) {
        Some(t) => unsigned(t),
        None => None,
    }
}

/// The unsigned integer that an object holds under a key, where it fits an index.
pub open spec fn member_index(tree: JsonTree, key: Seq<char>) -> Option<usize> {
    match member_unsigned(tree, key) {
        Some(n) => if n <= usize::MAX {
            Some(n as usize)
        } else {
            None
        },
        None => None,
    }
}

/// Whether an object holds, under a key, just this string.
pub open spec fn member_is_text(tree: JsonTree, key: Seq<char>, text: Seq<char>) -> bool {
    match member(tree, key) {
        Some(JsonTree::Text(s)) => s == text,
        _ => false,
    }
}

/// The contents of a slice of outside values.
pub open spec fn trees(values: Seq<serde_json::Value>) -> Seq<JsonTree> {
    Seq::new(values.len(), |i: int| json_tree(values[i]))
}

/// Calls `serde_json::from_slice`: it is given the whole text, and its result depends on
/// nothing else. A text that it rejects gives `None`.
#[verifier::external_body]
pub(crate) fn parse_document(text: &[u8]) -> (r: Option<serde_json::Value>)
    ensures
        match r {
            Some(value) => json_document(text@) == Some(json_tree(value)),
            None => json_document(text@) is None,
        },
{
    serde_json::from_slice(text).ok()
}

/// Calls `serde_json::Value::get` with a string: the member of an object under that key,
/// `None` for a missing key and for a value that is no object.
#[verifier::external_body]
pub(crate) fn get<'a>(value: &'a serde_json::Value, key: &str) -> (r: Option<&'a serde_json::Value>)
    ensures
        match r {
            Some(v) => member(json_tree(*value), key@) == Some(json_tree(*v)),
            None => member(json_tree(*value), key@) is None,
        },
{
    value.get(key)
}

/// Calls `serde_json::Value::as_u64`: the integer, where the value is one that is not
/// negative and fits 64 bits.
#[verifier::external_body]
pub(crate) fn as_u64(value: &serde_json::Value) -> (r: Option<u64>)
    ensures
        r == unsigned(json_tree(*value)),
{
    value.as_u64()
}

/// Calls `serde_json::Value::as_str`: the string, where the value is one.
#[verifier::external_body]
pub(crate) fn as_str(value: &serde_json::Value) -> (r: Option<&str>)
    ensures
        match r {
            Some(s) => json_tree(*value) == JsonTree::Text(s@),
            None => !(json_tree(*value) is Text),
        },
{
    value.as_str()
}

/// Calls `serde_json::Value::as_array`: the elements, where the value is an array.
#[verifier::external_body]
pub(crate) fn as_array(value: &serde_json::Value) -> (r: Option<&Vec<serde_json::Value>>)
    ensures
        match r {
            Some(items) => elements(json_tree(*value)) == Some(trees(items@)),
            None => elements(json_tree(*value)) is None,
        },
{
    value.as_array()
}

/// The index that an object holds under a key.
pub fn json_u(value: &serde_json::Value, key: &str) -> (r: Option<usize>)
    ensures
        r == member_index(json_tree(*value), key@),
{
    let v: &serde_json::Value = match get(value, key) {
        Some(v) => v,
        None => return None,
    };
    match as_u64(v) {
        Some(n) => if n <= usize::MAX as u64 {
            Some(n as usize)
        } else {
            None
        },
        None => None,
    }
}

/// The array that an object holds under a key.
pub(crate) fn json_array<'a>(value: &'a serde_json::Value, key: &str) -> (r: Option<
    &'a Vec<serde_json::Value>,
>)
    ensures
        match r {
            Some(items) => member_elements(json_tree(*value), key@) == Some(trees(items@)),
            None => member_elements(json_tree(*value), key@) is None,
        },
{
    match get(value, key) {
        Some(v) => as_array(v),
        None => None,
    }
}

/// Whether a value is an object that holds this under this key.
pub open spec fn holds(tree: JsonTree, key: Seq<char>, value: JsonTree) -> bool {
    tree matches JsonTree::Object(entries) && entries.contains_pair(key, value)
}

/// What is read under a key is what an object holds there, of the type that is asked for: a
/// member of any type, an integer, an index, the elements of an array or a given string.
pub proof fn members_are_what_an_object_holds(tree: JsonTree, key: Seq<char>)
    ensures
        forall|v: JsonTree| #[trigger] holds(tree, key, v) <==> member(tree, key) == Some(v),
        forall|n: u64|
            member_unsigned(tree, key) == Some(n) <==> #[trigger] holds(
                tree,
                key,
                JsonTree::Unsigned(n),
            ),
        forall|n: usize|
            n <= u64::MAX ==> (member_index(tree, key) == Some(n) <==> #[trigger] holds(
                tree,
                key,
                JsonTree::Unsigned(n as u64),
            )),
        forall|items: Seq<JsonTree>|
            member_elements(tree, key) == Some(items) <==> #[trigger] holds(
                tree,
                key,
                JsonTree::Array(items),
            ),
        forall|text: Seq<char>| #[trigger]
            member_is_text(tree, key, text) <==> holds(tree, key, JsonTree::Text(text)),
{
}

} // verus!
