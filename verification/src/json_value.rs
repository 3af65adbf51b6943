//! Reading JSON through `serde_json`: a text is parsed once into a `Value`,
//! and fields are read from the value by key or by JSON Pointer. A `Value` is
//! opaque here; what a read gives is named over the value it reads.
use vstd::prelude::*;

verus! {

#[verifier::external_type_specification]
#[verifier::external_body]
pub struct ExJsonValue(serde_json::Value);

/// The message `serde_json::from_str` reports for a text that is not JSON,
/// or `None` when the text parses.
pub uninterp spec fn spec_json_parse_error(text: Seq<char>) -> Option<Seq<char>>;

/// The value `serde_json::from_str` parses a JSON text into.
pub uninterp spec fn spec_json_value(text: Seq<char>) -> serde_json::Value;

/// Parses a JSON text with `serde_json::from_str`, reporting the error's
/// message on failure. Claimed: the outcome depends on the text alone.
#[verifier::external_body]
pub(crate) fn parse_json(text: &str) -> (r: Result<serde_json::Value, String>)
    ensures
        match r {
            Ok(v) => spec_json_parse_error(text@) is None && v == spec_json_value(text@),
            Err(m) => spec_json_parse_error(text@) == Some(m@),
        },
{
    match serde_json::from_str(text) {
        Ok(v) => Ok(v),
        Err(e) => Err(e.to_string()),
    }
}

/// The boolean a value holds under a key (`None` when it is not an object,
/// has no such key, or the entry is not a boolean).
pub uninterp spec fn spec_json_field_bool(v: serde_json::Value, key: Seq<char>) -> Option<bool>;

/// Reads a boolean entry of a value (`Value::get`, then `Value::as_bool`).
/// Claimed: the result depends on the value and the key alone.
#[verifier::external_body]
pub(crate) fn json_field_bool(v: &serde_json::Value, key: &str) -> (r: Option<bool>)
    ensures
        r == spec_json_field_bool(*v, key@),
{
    v.get(key).and_then(serde_json::Value::as_bool)
}

/// The string at a JSON Pointer in a value (`None` when nothing stands there
/// or it is not a string).
pub uninterp spec fn spec_json_pointer_str(v: serde_json::Value, pointer: Seq<char>) -> Option<Seq<char>>;

/// The non-negative integer at a JSON Pointer in a value, when it fits a `u64`.
pub uninterp spec fn spec_json_pointer_u64(v: serde_json::Value, pointer: Seq<char>) -> Option<u64>;

/// Whether anything stands at a JSON Pointer in a value.
pub uninterp spec fn spec_json_pointer_present(v: serde_json::Value, pointer: Seq<char>) -> bool;

/// The length of the array at a JSON Pointer in a value, when it is one.
pub uninterp spec fn spec_json_pointer_array_len(v: serde_json::Value, pointer: Seq<char>) -> Option<usize>;

/// The keys of the object at a JSON Pointer in a value, in the map's order
/// (`None` when nothing stands there or it is not an object).
pub uninterp spec fn spec_json_pointer_keys(v: serde_json::Value, pointer: Seq<char>) -> Option<Seq<Seq<char>>>;

/// Lists the keys of the object at a JSON Pointer (`Value::pointer`, then
/// `Value::as_object` and its keys). Claimed: the result depends on the value
/// and the pointer alone.
#[verifier::external_body]
pub(crate) fn json_pointer_keys(v: &serde_json::Value, pointer: &str) -> (r: Option<Vec<String>>)
    ensures
        match r {
            Some(ks) => spec_json_pointer_keys(*v, pointer@) == Some(ks@.map_values(|k: String| k@)),
            None => spec_json_pointer_keys(*v, pointer@) is None,
        },
{
    v.pointer(pointer).and_then(serde_json::Value::as_object).map(|m| m.keys().cloned().collect())
}

/// The value at a JSON Pointer in a value (`None` when nothing stands there).
pub uninterp spec fn spec_json_pointer_value(v: serde_json::Value, pointer: Seq<char>) -> Option<serde_json::Value>;

/// A copy of the value at a JSON Pointer (`Value::pointer`, then `clone`).
/// Claimed: the result depends on the value and the pointer alone.
#[verifier::external_body]
pub(crate) fn json_pointer_value(v: &serde_json::Value, pointer: &str) -> (r: Option<serde_json::Value>)
    ensures
        r == spec_json_pointer_value(*v, pointer@),
{
    v.pointer(pointer).cloned()
}

/// The sequence of an optional text.
pub open spec fn opt_text(o: Option<String>) -> Option<Seq<char>> {
    match o {
        Some(s) => Some(s@),
        None => None,
    }
}

/// Reads the string at a JSON Pointer (`Value::pointer`, then
/// `Value::as_str`). Claimed: the result depends on the value and the pointer
/// alone.
#[verifier::external_body]
pub(crate) fn json_pointer_str(v: &serde_json::Value, pointer: &str) -> (r: Option<String>)
    ensures
        opt_text(r) == spec_json_pointer_str(*v, pointer@),
{
    v.pointer(pointer).and_then(serde_json::Value::as_str).map(String::from)
}

/// Reads the integer at a JSON Pointer (`Value::pointer`, then
/// `Value::as_u64`). Claimed: the result depends on the value and the pointer
/// alone.
#[verifier::external_body]
pub(crate) fn json_pointer_u64(v: &serde_json::Value, pointer: &str) -> (r: Option<u64>)
    ensures
        r == spec_json_pointer_u64(*v, pointer@),
{
    v.pointer(pointer).and_then(serde_json::Value::as_u64)
}

/// Tells whether anything stands at a JSON Pointer (`Value::pointer`).
/// Claimed: the result depends on the value and the pointer alone.
#[verifier::external_body]
pub(crate) fn json_pointer_present(v: &serde_json::Value, pointer: &str) -> (r: bool)
    ensures
        r == spec_json_pointer_present(*v, pointer@),
{
    v.pointer(pointer).is_some()
}

/// The length of the array at a JSON Pointer (`Value::pointer`, then
/// `Value::as_array`). Claimed: the result depends on the value and the
/// pointer alone.
#[verifier::external_body]
pub(crate) fn json_pointer_array_len(v: &serde_json::Value, pointer: &str) -> (r: Option<usize>)
    ensures
        r == spec_json_pointer_array_len(*v, pointer@),
{
    v.pointer(pointer).and_then(serde_json::Value::as_array).map(|a| a.len())
}

/// The string at a JSON Pointer in a text, read as above from the text's
/// parse; `None` for a text that is not JSON.
pub open spec fn text_pointer_str(t: Seq<char>, pointer: Seq<char>) -> Option<Seq<char>> {
    match spec_json_parse_error(t) {
        Some(_) => None,
        None => spec_json_pointer_str(spec_json_value(t), pointer),
    }
}

/// The integer at a JSON Pointer in a text; `None` for a text that is not JSON.
pub open spec fn text_pointer_u64(t: Seq<char>, pointer: Seq<char>) -> Option<u64> {
    match spec_json_parse_error(t) {
        Some(_) => None,
        None => spec_json_pointer_u64(spec_json_value(t), pointer),
    }
}

/// Whether anything stands at a JSON Pointer in a text; never for a text that
/// is not JSON.
pub open spec fn text_pointer_present(t: Seq<char>, pointer: Seq<char>) -> bool {
    match spec_json_parse_error(t) {
        Some(_) => false,
        None => spec_json_pointer_present(spec_json_value(t), pointer),
    }
}

/// The length of the array at a JSON Pointer in a text; `None` for a text that
/// is not JSON.
pub open spec fn text_pointer_array_len(t: Seq<char>, pointer: Seq<char>) -> Option<usize> {
    match spec_json_parse_error(t) {
        Some(_) => None,
        None => spec_json_pointer_array_len(spec_json_value(t), pointer),
    }
}

/// The boolean a JSON object text holds under a key; `None` for a text that
/// is not JSON.
pub open spec fn text_field_bool(t: Seq<char>, key: Seq<char>) -> Option<bool> {
    match spec_json_parse_error(t) {
        Some(_) => None,
        None => spec_json_field_bool(spec_json_value(t), key),
    }
}

/// Reads a boolean field of a JSON object text (see `text_field_bool`).
pub fn json_text_bool_field(text: &str, key: &str) -> (r: Option<bool>)
    ensures
        r == text_field_bool(text@, key@),
{
    match parse_json(text) {
        Ok(v) => json_field_bool(&v, key),
        Err(_) => None,
    }
}

} // verus!
