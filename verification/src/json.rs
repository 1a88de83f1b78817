//! Trusted boundary around `serde_json`: parsing a frame into an untyped JSON
//! value and probing that value, with a mathematical model (`JsonSpec`) of
//! what this library reads from a parsed value.

use vstd::prelude::*;

verus! {

/// Mathematical model of a parsed JSON value, as far as this library reads
/// one. A number carries its value as `Some(u)` exactly when it is a
/// non-negative integer representable in a `u64` (a negative or fractional
/// number carries `None`); the elements of an array are never read, so an
/// array is modelled by its kind alone.
#[verifier::ext_equal]
pub enum JsonSpec {
    Null,
    Bool(bool),
    Num(Option<u64>),
    Str(Seq<char>),
    Arr,
    Obj(Map<Seq<char>, JsonSpec>),
}

#[verifier::external_type_specification]
#[verifier::external_body]
pub struct ExValue(serde_json::Value);

/// The model of a given `serde_json::Value`.
pub uninterp spec fn value_rep(v: serde_json::Value) -> JsonSpec;

/// What parsing a byte sequence as one JSON text yields: `Some` of the model
/// of the parsed value when the bytes are valid JSON, `None` otherwise.
pub uninterp spec fn json_parse(bytes: Seq<u8>) -> Option<JsonSpec>;

/// Relies on `serde_json::from_slice::<serde_json::Value>`: parses the bytes
/// as exactly one JSON text (surrounding whitespace allowed), and the result
/// depends on the bytes alone.
#[verifier::external_body]
pub(crate) fn parse_frame(bytes: &Vec<u8>) -> (r: Option<serde_json::Value>)
    ensures
        match r {
            Some(v) => json_parse(bytes@) == Some(value_rep(v)),
            None => json_parse(bytes@) is None,
        },
{
    serde_json::from_slice::<serde_json::Value>(bytes.as_slice()).ok()
}

/// Relies on `serde_json::Value::is_object`.
#[verifier::external_body]
pub(crate) fn value_is_object(v: &serde_json::Value) -> (r: bool)
    ensures
        r == (value_rep(*v) is Obj),
{
    v.is_object()
}

/// Relies on `serde_json::Value::get` with a string index: looks the key up
/// in an object, and returns `None` on any non-object value.
#[verifier::external_body]
pub(crate) fn value_get<'a>(v: &'a serde_json::Value, key: &String) -> (r: Option<
    &'a serde_json::Value,
>)
    ensures
        value_rep(*v) matches JsonSpec::Obj(m) ==> match r {
            Some(w) => m.contains_key(key@) && value_rep(*w) == m[key@],
            None => !m.contains_key(key@),
        },
        !(value_rep(*v) is Obj) ==> r is None,
{
    v.get(key.as_str())
}

/// Relies on `serde_json::Value::as_str`.
#[verifier::external_body]
pub(crate) fn value_as_str<'a>(v: &'a serde_json::Value) -> (r: Option<&'a str>)
    ensures
        match r {
            Some(s) => value_rep(*v) == JsonSpec::Str(s@),
            None => !(value_rep(*v) is Str),
        },
{
    v.as_str()
}

/// Relies on `serde_json::Value::as_u64`: `Some` exactly for a number that is
/// a non-negative integer representable in a `u64`.
#[verifier::external_body]
pub(crate) fn value_as_u64(v: &serde_json::Value) -> (r: Option<u64>)
    ensures
        match value_rep(*v) {
            JsonSpec::Num(o) => r == o,
            _ => r is None,
        },
{
    v.as_u64()
}

/// Relies on `serde_json::Value::as_bool`.
#[verifier::external_body]
pub(crate) fn value_as_bool(v: &serde_json::Value) -> (r: Option<bool>)
    ensures
        match r {
            Some(b) => value_rep(*v) == JsonSpec::Bool(b),
            None => !(value_rep(*v) is Bool),
        },
{
    v.as_bool()
}

/// Relies on `serde_json::Value::is_null`.
#[verifier::external_body]
pub(crate) fn value_is_null(v: &serde_json::Value) -> (r: bool)
    ensures
        r == (value_rep(*v) is Null),
{
    v.is_null()
}

} // verus!
