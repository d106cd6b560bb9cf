//! The JSON values that notes, graphs and canvases carry, and the calls into
//! `serde_json` that read, build, print and parse them.
//!
//! A `serde_json::Value` is opaque to the verifier. What the rest of the crate
//! needs to know about one is given by five model functions, one per kind of
//! content, and each call into `serde_json` is a small function whose contract is
//! stated over those models. None of these contracts is proved: they restate the
//! behaviour of the `serde_json` function that the body calls.

use vstd::prelude::*;
use serde_json::Value;

verus! {

/// `serde_json::Value`, carried through the crate without looking inside.
#[verifier::external_type_specification]
#[verifier::external_body]
pub struct ExValue(Value);

/// `serde_json::Error`, the failure of printing or parsing.
#[verifier::external_type_specification]
#[verifier::external_body]
pub struct ExJsonError(serde_json::Error);

/// The members of a JSON object, by key; `None` for a value that is no object.
pub uninterp spec fn json_fields(v: Value) -> Option<Map<Seq<char>, Value>>;

/// The elements of a JSON array, in order; `None` for a value that is no array.
pub uninterp spec fn json_items(v: Value) -> Option<Seq<Value>>;

/// The characters of a JSON string; `None` for a value that is no string.
pub uninterp spec fn json_text(v: Value) -> Option<Seq<char>>;

/// The truth value of a JSON boolean; `None` for a value that is no boolean.
pub uninterp spec fn json_bool(v: Value) -> Option<bool>;

/// A JSON number that is an integer in the range of `i64`; `None` for any other
/// value.
pub uninterp spec fn json_int(v: Value) -> Option<i64>;

/// What `serde_json::from_str` makes of a text: the value it parses to, or
/// `None` where it reports an error.
pub uninterp spec fn json_parse(text: Seq<char>) -> Option<Value>;

/// What `serde_json::to_string_pretty` prints for a value, or `None` where it
/// reports an error.
pub uninterp spec fn json_pretty(v: Value) -> Option<Seq<char>>;

/// The member of an object stored under `key`, if the value is an object that
/// has one.
pub open spec fn member(v: Value, key: Seq<char>) -> Option<Value> {
    match json_fields(v) {
        Some(fields) => if fields.contains_key(key) {
            Some(fields[key])
        } else {
            None
        },
        None => None,
    }
}

/// The member under `key` read as a string.
pub open spec fn text_member(v: Value, key: Seq<char>) -> Option<Seq<char>> {
    match member(v, key) {
        Some(m) => json_text(m),
        None => None,
    }
}

/// The member under `key` read as a boolean.
pub open spec fn bool_member(v: Value, key: Seq<char>) -> Option<bool> {
    match member(v, key) {
        Some(m) => json_bool(m),
        None => None,
    }
}

/// The member under `key` read as an integer.
pub open spec fn int_member(v: Value, key: Seq<char>) -> Option<i64> {
    match member(v, key) {
        Some(m) => json_int(m),
        None => None,
    }
}

/// `serde_json::from_str` at type `Value`: the parsed value, `None` on any
/// parse error. The result is the one that `json_parse` names.
#[verifier::external_body]
pub(crate) fn parse_json(text: &str) -> (r: Option<Value>)
    ensures
        r == json_parse(text@),
{
    serde_json::from_str::<Value>(text).ok()
}

/// `serde_json::to_string_pretty` on a `Value`: the printed text, or the error
/// that the printer reported. The text is the one that `json_pretty` names.
#[verifier::external_body]
pub(crate) fn pretty_json(v: &Value) -> (r: Result<String, serde_json::Error>)
    ensures
        r is Ok <==> json_pretty(*v) is Some,
        r is Ok ==> r->Ok_0@ == json_pretty(*v)->0,
{
    serde_json::to_string_pretty(v)
}

/// The `Display` text of a `serde_json::Error`. Nothing is claimed of it.
#[verifier::external_body]
pub(crate) fn error_message(e: &serde_json::Error) -> String {
    e.to_string()
}

/// `Value::get` with a string index: the member under `key` where the value is
/// an object that has that key, `None` otherwise.
#[verifier::external_body]
pub(crate) fn value_get<'a>(v: &'a Value, key: &str) -> (r: Option<&'a Value>)
    ensures
        r is Some <==> member(*v, key@) is Some,
        r is Some ==> *r->0 == member(*v, key@)->0,
{
    v.get(key)
}

/// `Value::as_str`: the string's characters where the value is a string.
#[verifier::external_body]
pub(crate) fn value_as_str(v: &Value) -> (r: Option<&str>)
    ensures
        r is Some <==> json_text(*v) is Some,
        r is Some ==> r->0@ == json_text(*v)->0,
{
    v.as_str()
}

/// `Value::as_bool`: the truth value where the value is a boolean.
#[verifier::external_body]
pub(crate) fn value_as_bool(v: &Value) -> (r: Option<bool>)
    ensures
        r == json_bool(*v),
{
    v.as_bool()
}

/// `Value::as_i64`: the number where the value is an integer that fits `i64`.
#[verifier::external_body]
pub(crate) fn value_as_i64(v: &Value) -> (r: Option<i64>)
    ensures
        r == json_int(*v),
{
    v.as_i64()
}

/// `Value::clone`: a value equal to the one cloned.
#[verifier::external_body]
pub(crate) fn clone_value(v: &Value) -> (r: Value)
    ensures
        r == *v,
{
    v.clone()
}

/// `Value::String`: a JSON string with the given characters.
#[verifier::external_body]
pub(crate) fn text_value(s: String) -> (r: Value)
    ensures
        json_text(r) == Some(s@),
{
    Value::String(s)
}

/// `Value::Bool`: a JSON boolean.
#[verifier::external_body]
pub(crate) fn bool_value(b: bool) -> (r: Value)
    ensures
        json_bool(r) == Some(b),
{
    Value::Bool(b)
}

/// `Value::from` on an `i64`: a JSON number that reads back as that integer.
#[verifier::external_body]
pub(crate) fn int_value(n: i64) -> (r: Value)
    ensures
        json_int(r) == Some(n),
{
    Value::from(n)
}

/// `Value::Object` on `Map::new()`: a JSON object without members.
#[verifier::external_body]
pub(crate) fn empty_object() -> (r: Value)
    ensures
        json_fields(r) == Some(Map::<Seq<char>, Value>::empty()),
{
    Value::Object(serde_json::Map::new())
}

/// `Value::Array`: a JSON array of the given elements, in their order.
#[verifier::external_body]
pub(crate) fn array_value(items: Vec<Value>) -> (r: Value)
    ensures
        json_items(r) == Some(items@),
{
    Value::Array(items)
}

/// `Map::insert` on the map of a JSON object: the member under `key` becomes
/// `member`, whether or not the key was there; the other members stay. A value
/// that is no object is left as it was.
#[verifier::external_body]
pub(crate) fn set_member(object: &mut Value, key: &str, member: Value)
    ensures
        json_fields(*old(object)) is Some ==> json_fields(*final(object)) == Some(
            json_fields(*old(object))->0.insert(key@, member),
        ),
        json_fields(*old(object)) is None ==> *final(object) == *old(object),
{
    if let Some(map) = object.as_object_mut() {
        map.insert(key.to_string(), member);
    }
}

/// `Map::remove` on the map of a JSON object: the member under `key` leaves and
/// is returned; the other members stay. A value that is no object, or that has
/// no such member, is left as it was, and `None` is returned.
#[verifier::external_body]
pub(crate) fn remove_member(object: &mut Value, key: &str) -> (r: Option<Value>)
    ensures
        r == member(*old(object), key@),
        r is Some ==> json_fields(*final(object)) == Some(
            json_fields(*old(object))->0.remove(key@),
        ),
        r is None ==> *final(object) == *old(object),
{
    match object.as_object_mut() {
        Some(map) => map.remove(key),
        None => None,
    }
}

} // verus!
