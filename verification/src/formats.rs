//! Access to JSON and TOML documents, parsed by `serde_json` and `toml`.
//!
//! The documents stay opaque values: nothing is stated of what they hold beyond what
//! each accessor hands back.
use vstd::prelude::*;

verus! {

/// A TOML value, carried as the `toml` crate represents it.
#[verifier::external_type_specification]
#[verifier::external_body]
pub struct ExTomlValue(toml::Value);

/// Calls `serde_json::from_str::<serde_json::Value>`; a syntax error comes back rendered
/// by its `Display`.
#[verifier::external_body]
pub(crate) fn json_parse(text: &str) -> (res: Result<serde_json::Value, String>) {
    serde_json::from_str::<serde_json::Value>(text).map_err(|error| error.to_string())
}

/// Calls `serde_json::Value::get` with a key: the member of an object, if any.
#[verifier::external_body]
pub(crate) fn json_member(value: &serde_json::Value, key: &str) -> (res: Option<serde_json::Value>) {
    value.get(key).cloned()
}

/// Calls `serde_json::Value::as_object`: the members of an object, in the map's order.
#[verifier::external_body]
pub(crate) fn json_object_entries(value: &serde_json::Value) -> (res: Option<Vec<(String, serde_json::Value)>>) {
    value.as_object().map(|map| map.iter().map(|(key, item)| (key.clone(), item.clone())).collect())
}

/// Calls `serde_json::Value::as_array`: the elements of an array.
#[verifier::external_body]
pub(crate) fn json_array_items(value: &serde_json::Value) -> (res: Option<Vec<serde_json::Value>>) {
    value.as_array().cloned()
}

/// Calls `serde_json::Value::as_str`: the text of a string value.
#[verifier::external_body]
pub(crate) fn json_as_str(value: &serde_json::Value) -> (res: Option<String>) {
    value.as_str().map(|text| text.to_string())
}

/// Calls `serde_json::Value::as_bool`: the value of a boolean.
#[verifier::external_body]
pub(crate) fn json_as_bool(value: &serde_json::Value) -> (res: Option<bool>) {
    value.as_bool()
}

/// Calls `toml::from_str::<toml::Value>`; a syntax error comes back rendered by its
/// `Display`.
#[verifier::external_body]
pub(crate) fn toml_parse(text: &str) -> (res: Result<toml::Value, String>) {
    toml::from_str::<toml::Value>(text).map_err(|error| error.to_string())
}

/// Calls `toml::Value::get` with a key: the entry of a table, if any.
#[verifier::external_body]
pub(crate) fn toml_member(value: &toml::Value, key: &str) -> (res: Option<toml::Value>) {
    value.get(key).cloned()
}

/// Calls `toml::Value::as_table`: the entries of a table, in the table's order.
#[verifier::external_body]
pub(crate) fn toml_table_entries(value: &toml::Value) -> (res: Option<Vec<(String, toml::Value)>>) {
    value.as_table().map(|table| table.iter().map(|(key, item)| (key.clone(), item.clone())).collect())
}

/// Calls `toml::Value::as_array`: the elements of an array.
#[verifier::external_body]
pub(crate) fn toml_array_items(value: &toml::Value) -> (res: Option<Vec<toml::Value>>) {
    value.as_array().cloned()
}

/// Calls `toml::Value::as_str`: the text of a string value.
#[verifier::external_body]
pub(crate) fn toml_as_str(value: &toml::Value) -> (res: Option<String>) {
    value.as_str().map(|text| text.to_string())
}

/// A leaf of a JSON object built by the library.
pub enum JsonLeaf {
    Text(String),
    Flag(bool),
    EmptyObject,
}

/// Builds a `serde_json::Value::Object` from its members, in order: a text becomes
/// `Value::String`, a flag `Value::Bool`, an empty object `Value::Object` with no member.
#[verifier::external_body]
pub(crate) fn json_object(members: Vec<(String, JsonLeaf)>) -> (res: serde_json::Value) {
    serde_json::Value::Object(members.into_iter().map(|(key, leaf)| (key, match leaf {
        JsonLeaf::Text(text) => serde_json::Value::String(text),
        JsonLeaf::Flag(flag) => serde_json::Value::Bool(flag),
        JsonLeaf::EmptyObject => serde_json::Value::Object(serde_json::Map::new()),
    })).collect())
}

/// Calls `<serde_json::Value as Clone>::clone`.
#[verifier::external_body]
pub(crate) fn json_clone(value: &serde_json::Value) -> (res: serde_json::Value) {
    value.clone()
}

/// The kind of a JSON value.
#[derive(Clone, Copy, Debug, PartialEq, Eq, Structural)]
pub enum JsonKind {
    Null,
    Boolean,
    Number,
    Text,
    Array,
    Object,
}

/// Tells the variants of `serde_json::Value` apart.
#[verifier::external_body]
pub(crate) fn json_kind(value: &serde_json::Value) -> (res: JsonKind) {
    match value {
        serde_json::Value::Null => JsonKind::Null,
        serde_json::Value::Bool(_) => JsonKind::Boolean,
        serde_json::Value::Number(_) => JsonKind::Number,
        serde_json::Value::String(_) => JsonKind::Text,
        serde_json::Value::Array(_) => JsonKind::Array,
        serde_json::Value::Object(_) => JsonKind::Object,
    }
}

/// Calls `<serde_json::Value as PartialEq>::eq`: structural equality of two documents.
#[verifier::external_body]
pub(crate) fn json_equal(a: &serde_json::Value, b: &serde_json::Value) -> (res: bool) {
    a == b
}

/// `serde_json::Value::Null`.
#[verifier::external_body]
pub(crate) fn json_null() -> (res: serde_json::Value) {
    serde_json::Value::Null
}

/// Calls `serde_json::Value::from` on a boolean: `Value::Bool`.
#[verifier::external_body]
pub(crate) fn json_from_bool(b: bool) -> (res: serde_json::Value) {
    serde_json::Value::from(b)
}

/// Calls `serde_json::Value::from` on a text: `Value::String`.
#[verifier::external_body]
pub(crate) fn json_from_text(text: &str) -> (res: serde_json::Value) {
    serde_json::Value::from(text)
}

/// Calls `serde_json::to_value` on an unsigned number; a number beyond `u64` comes back as
/// `Value::Null`.
#[verifier::external_body]
pub(crate) fn json_from_u128(n: u128) -> (res: serde_json::Value) {
    serde_json::to_value(n).unwrap_or(serde_json::Value::Null)
}

/// Calls `serde_json::Value::as_u64`: the value of a non-negative integer that fits in `u64`.
#[verifier::external_body]
pub(crate) fn json_as_u64(value: &serde_json::Value) -> (res: Option<u64>) {
    value.as_u64()
}

/// Calls `serde_json::Value::to_string`: the compact JSON text of the value.
#[verifier::external_body]
pub(crate) fn json_to_text(value: &serde_json::Value) -> (res: String) {
    value.to_string()
}

} // verus!
