//! Trusted interface to the JSON parser. A parsed value is opaque; the
//! contracts speak of the tree `json_tree` it holds — an object is a map
//! from member names to subtrees, an array a sequence of subtrees — and,
//! for a text, the named parse result `json_parse`, a function of the text
//! alone.

use vstd::prelude::*;

verus! {

/// A JSON document as a mathematical tree. Numbers are not inspected by
/// this library, so they carry no payload.
pub enum JsonVal {
    Null,
    Bool(bool),
    Num,
    Str(Seq<char>),
    Arr(Seq<JsonVal>),
    Obj(Map<Seq<char>, JsonVal>),
}

#[verifier::external_type_specification]
#[verifier::external_body]
pub struct ExJsonValue(serde_json::Value);

/// What the JSON parser yields on this text, or nothing when it rejects
/// it; a fixed function of the text alone.
pub uninterp spec fn json_parse(text: Seq<char>) -> Option<JsonVal>;

/// The tree a parsed value holds.
pub uninterp spec fn json_tree(v: serde_json::Value) -> JsonVal;

/// Relies on serde_json::from_str::<Value>: acceptance and the resulting
/// tree are functions of the text alone.
#[verifier::external_body]
pub(crate) fn json_from_str(s: &str) -> (r: Option<serde_json::Value>)
    ensures
        r is Some <==> json_parse(s@) is Some,
        r matches Some(v) ==> json_tree(v) == json_parse(s@).unwrap(),
{
    serde_json::from_str::<serde_json::Value>(s).ok()
}

/// Relies on serde_json::Value::get with a string index: for an object,
/// the member under that name; for anything else nothing.
#[verifier::external_body]
pub(crate) fn json_get<'a>(v: &'a serde_json::Value, key: &str) -> (r: Option<
    &'a serde_json::Value,
>)
    ensures
        match json_tree(*v) {
            JsonVal::Obj(m) => {
                &&& r is Some <==> m.dom().contains(key@)
                &&& (r matches Some(w) ==> json_tree(*w) == m[key@])
            },
            _ => r is None,
        },
{
    v.get(key)
}

/// Relies on serde_json::Value::as_str: the text of a string value.
#[verifier::external_body]
pub(crate) fn json_as_str<'a>(v: &'a serde_json::Value) -> (r: Option<&'a str>)
    ensures
        match json_tree(*v) {
            JsonVal::Str(s) => r matches Some(x) && x@ == s,
            _ => r is None,
        },
{
    v.as_str()
}

/// Relies on serde_json::Value::as_array: the elements of an array value.
#[verifier::external_body]
pub(crate) fn json_as_array<'a>(v: &'a serde_json::Value) -> (r: Option<&'a Vec<serde_json::Value>>)
    ensures
        match json_tree(*v) {
            JsonVal::Arr(els) => r matches Some(a) && a@.map_values(
                |x: serde_json::Value| json_tree(x),
            ) == els,
            _ => r is None,
        },
{
    v.as_array()
}

/// Relies on serde_json::Value::is_null.
#[verifier::external_body]
pub(crate) fn json_is_null(v: &serde_json::Value) -> (r: bool)
    ensures
        r == (json_tree(*v) is Null),
{
    v.is_null()
}

} // verus!
