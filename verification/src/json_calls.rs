//! The calls into the `json` crate, each behind a trusted wrapper whose
//! contract states, over the abstract document `jv_of`, what the crate's
//! code does. Everything else in this crate is verified against these
//! contracts.

use vstd::prelude::*;
use crate::jv::{Jv, obj_has, obj_get, arr_at, arr_len, str_of, u32_of, bool_of};

verus! {

#[verifier::external_type_specification]
#[verifier::external_body]
pub struct ExJsonValue(json::JsonValue);

#[verifier::external_type_specification]
#[verifier::external_body]
pub struct ExJsonError(json::Error);

/// The abstract document a `json::JsonValue` holds.
pub uninterp spec fn jv_of(v: json::JsonValue) -> Jv;

/// The document `json::parse` reads from `s`: `Some` exactly on the text
/// the parser accepts.
pub uninterp spec fn doc_of(s: Seq<char>) -> Option<Jv>;

/// The text `json::stringify_pretty` produces for `v` at a four-space
/// indent; a function of the value alone.
pub uninterp spec fn pretty_of(v: json::JsonValue) -> Seq<char>;

/// Relies on `json::parse`: it accepts exactly well-formed JSON text and
/// returns the document that text describes.
#[verifier::external_body]
pub(crate) fn jv_parse(s: &str) -> (r: Result<json::JsonValue, json::Error>)
    ensures
        r is Ok <==> doc_of(s@) is Some,
        r matches Ok(v) ==> jv_of(v) == doc_of(s@)->Some_0,
{
    json::parse(s)
}

/// Relies on `JsonValue::members`: an array yields its elements in order,
/// any other value yields nothing.
#[verifier::external_body]
pub(crate) fn jv_arr_len(v: &json::JsonValue) -> (r: usize)
    ensures
        r as int == arr_len(jv_of(*v)),
{
    v.members().len()
}

/// Relies on `JsonValue`'s `Index<usize>`: the `i`-th array element, or
/// null when out of range or not an array.
#[verifier::external_body]
pub(crate) fn jv_at<'a>(v: &'a json::JsonValue, i: usize) -> (r: &'a json::JsonValue)
    ensures
        jv_of(*r) == arr_at(jv_of(*v), i as int),
{
    &v[i]
}

/// Relies on `JsonValue`'s `Index<&str>`: the object entry under `key`, or
/// null when absent or not an object.
#[verifier::external_body]
pub(crate) fn jv_get<'a>(v: &'a json::JsonValue, key: &str) -> (r: &'a json::JsonValue)
    ensures
        jv_of(*r) == obj_get(jv_of(*v), key@),
{
    &v[key]
}

/// Relies on `JsonValue::has_key`: whether an object holds an entry under
/// `key`; false for any other value.
#[verifier::external_body]
pub(crate) fn jv_has_key(v: &json::JsonValue, key: &str) -> (r: bool)
    ensures
        r == obj_has(jv_of(*v), key@),
{
    v.has_key(key)
}

/// Relies on `JsonValue::as_str`: the characters of a string value.
#[verifier::external_body]
pub(crate) fn jv_as_str<'a>(v: &'a json::JsonValue) -> (r: Option<&'a str>)
    ensures
        r is Some <==> str_of(jv_of(*v)) is Some,
        r matches Some(s) ==> str_of(jv_of(*v)) == Some(s@),
{
    v.as_str()
}

/// Relies on `JsonValue::as_u32`: the value of an exact non-negative
/// integer that fits in a `u32`, and nothing for any other number.
#[verifier::external_body]
pub(crate) fn jv_as_u32(v: &json::JsonValue) -> (r: Option<u32>)
    ensures
        r == u32_of(jv_of(*v)),
{
    v.as_u32()
}

/// Relies on `JsonValue::as_bool`: the value of a boolean.
#[verifier::external_body]
pub(crate) fn jv_as_bool(v: &json::JsonValue) -> (r: Option<bool>)
    ensures
        r == bool_of(jv_of(*v)),
{
    v.as_bool()
}

/// What a key list read off an object satisfies: each key once, every key
/// an entry of the object, and every entry's key listed.
pub open spec fn keys_facts(ks: Seq<String>, j: Jv) -> bool {
    &&& forall|a: int, b: int| 0 <= a < b < ks.len() ==> ks[a]@ != ks[b]@
    &&& forall|a: int| 0 <= a < ks.len() ==> j is Obj && obj_has(j, #[trigger] ks[a]@)
    &&& forall|k: Seq<char>|
        obj_has(j, k) ==> exists|a: int| 0 <= a < ks.len() && #[trigger] ks[a]@ == k
}

/// Relies on `JsonValue::entries`: an object yields each of its keys once;
/// any other value yields nothing. The order entries come in is left open.
#[verifier::external_body]
pub(crate) fn jv_obj_keys(v: &json::JsonValue) -> (r: Vec<String>)
    ensures
        keys_facts(r@, jv_of(*v)),
{
    v.entries().map(|e: (&str, &json::JsonValue)| e.0.to_string()).collect()
}

/// Relies on `JsonValue::new_object`: an empty object.
#[verifier::external_body]
pub(crate) fn jv_new_object() -> (r: json::JsonValue)
    ensures
        jv_of(r) == Jv::Obj(Map::<Seq<char>, Jv>::empty()),
{
    json::JsonValue::new_object()
}

/// Relies on `JsonValue::insert` on an object: it adds the entry, or
/// overwrites the one already under `key`.
#[verifier::external_body]
pub(crate) fn jv_obj_insert(v: &mut json::JsonValue, key: &str, value: json::JsonValue)
    requires
        jv_of(*old(v)) is Obj,
    ensures
        jv_of(*final(v)) == Jv::Obj(jv_of(*old(v))->Obj_0.insert(key@, jv_of(value))),
{
    let _ = v.insert(key, value);
}

/// Relies on `JsonValue::from(u32)`: an exact integer number.
#[verifier::external_body]
pub(crate) fn jv_from_u32(x: u32) -> (r: json::JsonValue)
    ensures
        jv_of(r) == Jv::Num(x as int),
{
    json::JsonValue::from(x)
}

/// Relies on `JsonValue::from(&str)`: a string value.
#[verifier::external_body]
pub(crate) fn jv_from_string(s: &String) -> (r: json::JsonValue)
    ensures
        jv_of(r) == Jv::Str(s@),
{
    json::JsonValue::from(s.as_str())
}

/// Relies on `json::stringify_pretty` at a four-space indent; its output
/// for a given value is named `pretty_of`.
#[verifier::external_body]
pub(crate) fn jv_pretty4(v: json::JsonValue) -> (r: String)
    ensures
        r@ == pretty_of(v),
{
    json::stringify_pretty(v, 4)
}

} // verus!
