//! The boundary to `serde_json`: the JSON value type, names for what a value
//! holds, and one small function for each `serde_json` call the store makes.
//!
//! Nothing in this file is proved. Each contract restates what the named
//! `serde_json` function does, and the rest of the crate is verified against
//! these contracts alone.

use serde_json::Value;
use vstd::prelude::*;

verus! {

/// `serde_json::Value`, a JSON value of any shape. Opaque to the verifier:
/// the store carries records through and reads them only by the functions
/// below.
#[verifier::external_type_specification]
#[verifier::external_body]
pub struct ExValue(serde_json::Value);

/// `serde_json::Error`, what `serde_json` reports when it cannot print or
/// parse. Opaque; the store maps it to its own error.
#[verifier::external_type_specification]
#[verifier::external_body]
pub struct ExJsonError(serde_json::Error);

/// The fields of a JSON object by key, as `Value::as_object` exposes them;
/// `None` for a value that is not an object.
pub uninterp spec fn json_fields(v: Value) -> Option<Map<Seq<char>, Value>>;

/// The characters of a JSON string, as `Value::as_str` returns them; `None`
/// for a value that is not a string.
pub uninterp spec fn json_text(v: Value) -> Option<Seq<char>>;

/// The number that `Value::as_u64` returns: `Some` for a JSON integer between
/// zero and `u64::MAX`, `None` for every other value.
pub uninterp spec fn json_u64(v: Value) -> Option<u64>;

/// The compact JSON text that `serde_json::to_string` writes for a value;
/// `None` where it reports an error.
pub uninterp spec fn json_print(v: Value) -> Option<Seq<char>>;

/// The value that `serde_json::from_str` reads from a text; `None` where the
/// text is not one JSON document.
pub uninterp spec fn json_parse(text: Seq<char>) -> Option<Value>;

/// No key occurs twice among `entries`.
pub open spec fn distinct_keys(entries: Seq<(String, Value)>) -> bool {
    forall|i: int, j: int|
        0 <= i < j < entries.len() ==> (#[trigger] entries[i]).0@ != (#[trigger] entries[j]).0@
}

/// `fields` holds exactly the key-value pairs listed in `entries`.
pub open spec fn holds_entries(fields: Map<Seq<char>, Value>, entries: Seq<(String, Value)>) -> bool {
    &&& forall|i: int|
        0 <= i < entries.len() ==> fields.contains_key((#[trigger] entries[i]).0@)
            && fields[entries[i].0@] == entries[i].1
    &&& forall|k: Seq<char>| #[trigger]
        fields.contains_key(k) ==> exists|i: int|
            0 <= i < entries.len() && (#[trigger] entries[i]).0@ == k
}

/// `Value::clone`: the copy is the same JSON value.
#[verifier::external_body]
pub(crate) fn clone_value(v: &Value) -> (r: Value)
    ensures
        r == *v,
{
    v.clone()
}

/// `Value::get` with a string index: the field of that name where `v` is an
/// object that has it, `None` in every other case.
#[verifier::external_body]
pub(crate) fn get_field<'a>(v: &'a Value, key: &str) -> (r: Option<&'a Value>)
    ensures
        r == match json_fields(*v) {
            Some(fields) => if fields.contains_key(key@) {
                Some(&fields[key@])
            } else {
                None
            },
            None => None,
        },
{
    v.get(key)
}

/// `Value == str`: true exactly where `v` is a JSON string with the
/// characters of `text`.
#[verifier::external_body]
pub(crate) fn is_text(v: &Value, text: &str) -> (r: bool)
    ensures
        r == (json_text(*v) == Some(text@)),
{
    *v == *text
}

/// `Value::as_u64`.
#[verifier::external_body]
pub(crate) fn as_u64(v: &Value) -> (r: Option<u64>)
    ensures
        r == json_u64(*v),
{
    v.as_u64()
}

/// `Value::from(u32)`: the JSON integer `n`, which `Value::as_u64` reads
/// back as `n`.
#[verifier::external_body]
pub(crate) fn number(n: u32) -> (r: Value)
    ensures
        json_u64(r) == Some(n as u64),
{
    Value::from(n)
}

/// `Value::from(String)`: the JSON string with the characters of `s`, which
/// `Value::as_str` reads back.
#[verifier::external_body]
pub(crate) fn text(s: String) -> (r: Value)
    ensures
        json_text(r) == Some(s@),
{
    Value::from(s)
}

/// `Value::as_object` followed by `Map::iter`: every field of an object, each
/// once, with a copy of its value; `None` where `v` is not an object. The
/// order of the fields is left open.
#[verifier::external_body]
pub(crate) fn object_entries(v: &Value) -> (r: Option<Vec<(String, Value)>>)
    ensures
        match r {
            Some(entries) => json_fields(*v) matches Some(fields) && distinct_keys(entries@)
                && holds_entries(fields, entries@),
            None => json_fields(*v) is None,
        },
{
    v.as_object().map(|m| m.iter().map(|(k, x)| (k.clone(), x.clone())).collect())
}

/// `Value::Object` over a `serde_json::Map` collected from `entries`: the
/// object whose fields are exactly these key-value pairs.
#[verifier::external_body]
pub(crate) fn object_from(entries: Vec<(String, Value)>) -> (r: Value)
    requires
        distinct_keys(entries@),
    ensures
        json_fields(r) is Some,
        holds_entries(json_fields(r)->0, entries@),
{
    Value::Object(entries.into_iter().collect())
}

/// `serde_json::to_string` on a value.
#[verifier::external_body]
pub(crate) fn to_text(v: &Value) -> (r: Result<String, serde_json::Error>)
    ensures
        match r {
            Ok(text) => json_print(*v) == Some(text@),
            Err(_) => json_print(*v) is None,
        },
{
    serde_json::to_string(v)
}

/// `serde_json::from_str` into a value.
#[verifier::external_body]
pub(crate) fn parse_text(text: &str) -> (r: Result<Value, serde_json::Error>)
    ensures
        match r {
            Ok(v) => json_parse(text@) == Some(v),
            Err(_) => json_parse(text@) is None,
        },
{
    serde_json::from_str(text)
}

} // verus!
