//! JSON documents as plain values: what the library reads from and writes to JSON, with
//! the conversions from and to `serde_json`'s values.
use vstd::prelude::*;

verus! {

/// A JSON document. Numbers keep their written form; an object lists its members in
/// order, and a key is read from its first member with that key.
#[derive(Debug)]
pub enum JsonDoc {
    Null,
    Bool(bool),
    Number(String),
    Text(String),
    Array(Vec<JsonDoc>),
    Object(Vec<(String, JsonDoc)>),
}

/// `i` is the first member of `ms` with the key `key`.
pub open spec fn member_at(ms: Seq<(String, JsonDoc)>, key: Seq<char>, i: int) -> bool {
    &&& 0 <= i < ms.len()
    &&& ms[i].0@ == key
    &&& forall|j: int| 0 <= j < i ==> ms[j].0@ != key
}

/// The value of the member `key` of an object; none for a missing key or another value.
pub open spec fn doc_get(d: JsonDoc, key: Seq<char>) -> Option<JsonDoc> {
    match d {
        JsonDoc::Object(ms) => if exists|i: int| member_at(ms@, key, i) {
            Some(ms@[choose|i: int| member_at(ms@, key, i)].1)
        } else {
            None
        },
        _ => None,
    }
}

/// The text of a string value.
pub open spec fn doc_text(d: JsonDoc) -> Option<Seq<char>> {
    match d {
        JsonDoc::Text(s) => Some(s@),
        _ => None,
    }
}

/// The value of a boolean.
pub open spec fn doc_flag(d: JsonDoc) -> Option<bool> {
    match d {
        JsonDoc::Bool(b) => Some(b),
        _ => None,
    }
}

/// The elements of an array.
pub open spec fn doc_items(d: JsonDoc) -> Option<Seq<JsonDoc>> {
    match d {
        JsonDoc::Array(v) => Some(v@),
        _ => None,
    }
}

/// The text of the member `key`, if it is a string.
pub open spec fn get_text(d: JsonDoc, key: Seq<char>) -> Option<Seq<char>> {
    match doc_get(d, key) {
        Some(v) => doc_text(v),
        None => None,
    }
}

/// The member `key` of an object, if any.
pub fn get<'a>(d: &'a JsonDoc, key: &str) -> (res: Option<&'a JsonDoc>)
    ensures
        match res {
            Some(v) => doc_get(*d, key@) == Some(*v),
            None => doc_get(*d, key@) is None,
        },
{
    match d {
        JsonDoc::Object(ms) => {
            let mut i: usize = 0;
            while i < ms.len()
                invariant
                    i <= ms@.len(),
                    *d == JsonDoc::Object(*ms),
                    forall|j: int| 0 <= j < i ==> ms@[j].0@ != key@,
                decreases ms.len() - i,
            {
                if crate::model::str_equal(ms[i].0.as_str(), key) {
                    proof {
                        assert(member_at(ms@, key@, i as int));
                        let c = choose|c: int| member_at(ms@, key@, c);
                        if c < i {
                            assert(ms@[c].0@ != key@);
                        }
                        if i < c {
                            assert(ms@[i as int].0@ != key@);
                        }
                        assert(c == i);
                        assert(doc_get(*d, key@) == Some(ms@[i as int].1));
                    }
                    return Some(&ms[i].1);
                }
                i = i + 1;
            }
            None
        },
        _ => None,
    }
}

/// The text of a string value, if it is one.
pub fn text_of(d: &JsonDoc) -> (res: Option<&String>)
    ensures
        match res {
            Some(s) => doc_text(*d) == Some(s@),
            None => doc_text(*d) is None,
        },
{
    match d {
        JsonDoc::Text(s) => Some(s),
        _ => None,
    }
}

/// The elements of an array, if it is one.
pub fn items_of(d: &JsonDoc) -> (res: Option<&Vec<JsonDoc>>)
    ensures
        match res {
            Some(v) => doc_items(*d) == Some(v@),
            None => doc_items(*d) is None,
        },
{
    match d {
        JsonDoc::Array(v) => Some(v),
        _ => None,
    }
}

/// The document `serde_json` reads from a text; none where it refuses the text.
pub uninterp spec fn spec_json_document(text: Seq<char>) -> Option<JsonDoc>;

/// Calls `serde_json::from_str::<serde_json::Value>` and converts the value it reads into a
/// document with `doc_of_value`. The result is named, not stated: it depends on the text alone.
#[verifier::external_body]
pub(crate) fn parse_document(text: &str) -> (res: Option<JsonDoc>)
    ensures
        res == spec_json_document(text@),
{
    serde_json::from_str::<serde_json::Value>(text).ok().map(|value| doc_of_value(&value))
}

/// The value reached from a document through the members named in turn by `keys`.
pub open spec fn doc_at_path(d: JsonDoc, keys: Seq<Seq<char>>) -> Option<JsonDoc>
    decreases keys.len(),
{
    if keys.len() == 0 {
        Some(d)
    } else {
        match doc_get(d, keys[0]) {
            Some(next) => doc_at_path(next, keys.drop_first()),
            None => None,
        }
    }
}

/// Converts a `serde_json::Value` one for one into a document: numbers by their `Display`,
/// objects member by member in the map's order. Nothing is stated of the result:
/// `serde_json`'s values have no model here.
#[verifier::external_body]
pub(crate) fn doc_of_value(value: &serde_json::Value) -> (res: JsonDoc) {
    match value {
        serde_json::Value::Null => JsonDoc::Null,
        serde_json::Value::Bool(b) => JsonDoc::Bool(*b),
        serde_json::Value::Number(n) => JsonDoc::Number(n.to_string()),
        serde_json::Value::String(s) => JsonDoc::Text(s.clone()),
        serde_json::Value::Array(items) => JsonDoc::Array(items.iter().map(doc_of_value).collect()),
        serde_json::Value::Object(map) => JsonDoc::Object(map.iter().map(|(k, v)| (k.clone(), doc_of_value(v))).collect()),
    }
}

/// Converts a document one for one into a `serde_json::Value`: a number by
/// `serde_json::Number`'s `FromStr` (`Value::Null` when that refuses it), an object by
/// inserting its members in order. Nothing is stated of the result: `serde_json`'s values
/// have no model here.
#[verifier::external_body]
pub(crate) fn value_of_doc(doc: &JsonDoc) -> (res: serde_json::Value) {
    match doc {
        JsonDoc::Null => serde_json::Value::Null,
        JsonDoc::Bool(b) => serde_json::Value::Bool(*b),
        JsonDoc::Number(n) => n.parse::<serde_json::Number>().map_or(serde_json::Value::Null, serde_json::Value::Number),
        JsonDoc::Text(s) => serde_json::Value::String(s.clone()),
        JsonDoc::Array(items) => serde_json::Value::Array(items.iter().map(value_of_doc).collect()),
        JsonDoc::Object(ms) => serde_json::Value::Object(ms.iter().map(|(k, v)| (k.clone(), value_of_doc(v))).collect()),
    }
}

} // verus!
