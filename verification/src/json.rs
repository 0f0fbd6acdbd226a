//! A model of parsed JSON documents, and the trusted boundary to
//! `serde_json`, which does the actual text parsing.
//!
//! A `serde_json::Value` is opaque here; `value_model` names its contents and
//! the accessor wrappers state how each call relates to that model.

use vstd::prelude::*;

verus! {

#[verifier::external_type_specification]
#[verifier::external_body]
pub struct ExValue(serde_json::Value);

/// Mathematical model of one JSON value. A number carries the 64-bit signed
/// integer it denotes, if it denotes one.
pub ghost enum JsonModel {
    Null,
    Bool(bool),
    Num(Option<i64>),
    Str(Seq<char>),
    Arr(Seq<JsonModel>),
    Obj(Map<Seq<char>, JsonModel>),
}

/// The contents of a `serde_json::Value`.
pub uninterp spec fn value_model(v: serde_json::Value) -> JsonModel;

/// What `serde_json::from_str` yields on a text: a function of the text
/// alone.
pub uninterp spec fn json_of(s: Seq<char>) -> Option<JsonModel>;

/// Relies on `serde_json::from_str::<Value>`: parsing is deterministic in
/// the text, and yields the parsed document or fails.
#[verifier::external_body]
pub fn json_from_str(s: &str) -> (r: Option<serde_json::Value>)
    ensures
        match r {
            Some(v) => json_of(s@) == Some(value_model(v)),
            None => json_of(s@) is None,
        },
{
    serde_json::from_str::<serde_json::Value>(s).ok()
}

/// Relies on `serde_json::Value::as_str`: `Some` exactly on a JSON string,
/// returning its characters.
#[verifier::external_body]
pub fn value_as_str<'a>(v: &'a serde_json::Value) -> (r: Option<&'a str>)
    ensures
        match value_model(*v) {
            JsonModel::Str(s) => r matches Some(x) && x@ == s,
            _ => r is None,
        },
{
    v.as_str()
}

/// Relies on `serde_json::Value::as_bool`: `Some` exactly on a JSON boolean.
#[verifier::external_body]
pub fn value_as_bool(v: &serde_json::Value) -> (r: Option<bool>)
    ensures
        match value_model(*v) {
            JsonModel::Bool(b) => r == Some(b),
            _ => r is None,
        },
{
    v.as_bool()
}

/// Relies on `serde_json::Value::as_i64`: the denoted integer of a JSON
/// number when it fits, `None` otherwise and on any other value.
#[verifier::external_body]
pub fn value_as_i64(v: &serde_json::Value) -> (r: Option<i64>)
    ensures
        match value_model(*v) {
            JsonModel::Num(o) => r == o,
            _ => r is None,
        },
{
    v.as_i64()
}

/// Relies on `serde_json::Value::is_null`.
#[verifier::external_body]
pub fn value_is_null(v: &serde_json::Value) -> (r: bool)
    ensures
        r == (value_model(*v) is Null),
{
    v.is_null()
}

/// Relies on `serde_json::Value::as_array`: `Some` exactly on a JSON array,
/// returning its elements in order.
#[verifier::external_body]
pub fn value_as_array<'a>(v: &'a serde_json::Value) -> (r: Option<&'a Vec<serde_json::Value>>)
    ensures
        match value_model(*v) {
            JsonModel::Arr(ms) => r matches Some(x) && x@.map_values(
                |e: serde_json::Value| value_model(e),
            ) == ms,
            _ => r is None,
        },
{
    v.as_array()
}

/// Relies on `serde_json::Value::get` with a string index: a key lookup in a
/// JSON object, `None` on any other value.
#[verifier::external_body]
pub fn value_get<'a>(v: &'a serde_json::Value, key: &str) -> (r: Option<&'a serde_json::Value>)
    ensures
        match value_model(*v) {
            JsonModel::Obj(m) => {
                &&& r is Some <==> m.dom().contains(key@)
                &&& (r matches Some(x) ==> value_model(*x) == m[key@])
            },
            _ => r is None,
        },
{
    v.get(key)
}

} // verus!
