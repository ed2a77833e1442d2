//! Contract checks on executed requests, and variables read from responses.
use vstd::prelude::*;

use crate::api::{ApiExecuteRequest, ApiExecutionResponse};
use crate::formats::{
    JsonKind, json_as_str, json_as_u64, json_clone, json_equal, json_from_bool, json_from_text, json_from_u128,
    json_kind, json_null, json_to_text,
};
use crate::json::{JsonDoc, doc_at_path, get, parse_document, spec_json_document, value_of_doc};
use crate::model::str_equal;
use crate::text::{chars_of, contains, occurs_at, seq_contains, spec_to_lowercase, string_of, to_lowercase};

verus! {

/// A check of a response: its kind, the header or JSON path it reads, and what is expected.
pub struct ApiAssertion {
    pub kind: String,
    pub key: Option<String>,
    pub expected: Option<serde_json::Value>,
}

/// A saved request with the checks its response must pass.
pub struct ApiContractTest {
    pub id: String,
    pub project_id: String,
    pub name: String,
    pub request: ApiExecuteRequest,
    pub assertions: Vec<ApiAssertion>,
    pub created_at: i64,
    pub updated_at: i64,
}

/// The outcome of one check.
pub struct ApiAssertionResult {
    pub assertion: ApiAssertion,
    pub passed: bool,
    pub actual: serde_json::Value,
    pub message: String,
}

/// A run of a contract test.
pub struct ApiContractRun {
    pub id: String,
    pub test_id: String,
    pub passed: bool,
    pub results: Vec<ApiAssertionResult>,
    pub response: ApiExecutionResponse,
    pub created_at: i64,
}

// ---------------------------------------------------------------------------
// JSON paths
// ---------------------------------------------------------------------------

/// `s` without its leading copies of `c`.
pub open spec fn strip_leading(s: Seq<char>, c: char) -> Seq<char>
    decreases s.len(),
{
    if s.len() > 0 && s[0] == c { strip_leading(s.drop_first(), c) } else { s }
}

/// The segments found so far, and the one being read.
pub open spec fn dot_state(s: Seq<char>) -> (Seq<Seq<char>>, Seq<char>)
    decreases s.len(),
{
    if s.len() == 0 {
        (Seq::empty(), Seq::empty())
    } else {
        let (done, current) = dot_state(s.drop_last());
        if s.last() == '.' {
            (if current.len() > 0 { done.push(current) } else { done }, Seq::empty())
        } else {
            (done, current.push(s.last()))
        }
    }
}

/// The non-empty pieces of `s` between dots.
pub open spec fn dot_segments(s: Seq<char>) -> Seq<Seq<char>> {
    let (done, current) = dot_state(s);
    if current.len() > 0 { done.push(current) } else { done }
}

/// The member names a JSON path such as `$.user.id` goes through.
pub open spec fn spec_path_segments(path: Seq<char>) -> Seq<Seq<char>> {
    dot_segments(strip_leading(strip_leading(path, '$'), '.'))
}

fn skip_leading(s: &Vec<char>, from: usize, c: char) -> (res: usize)
    requires
        from <= s@.len(),
    ensures
        from <= res <= s@.len(),
        s@.subrange(res as int, s@.len() as int) == strip_leading(s@.subrange(from as int, s@.len() as int), c),
{
    let mut i = from;
    while i < s.len() && s[i] == c
        invariant
            from <= i <= s@.len(),
            strip_leading(s@.subrange(from as int, s@.len() as int), c) == strip_leading(s@.subrange(i as int, s@.len() as int), c),
        decreases s.len() - i,
    {
        assert(s@.subrange(i as int, s@.len() as int).drop_first() =~= s@.subrange(i + 1, s@.len() as int));
        i = i + 1;
    }
    i
}

/// The member names a JSON path goes through.
pub fn path_segments(path: &str) -> (res: Vec<String>)
    ensures
        res@.map_values(|s: String| s@) == spec_path_segments(path@),
{
    let c = chars_of(path);
    assert(c@.subrange(0, c@.len() as int) =~= c@);
    let a = skip_leading(&c, 0, '$');
    let b = skip_leading(&c, a, '.');
    let ghost rest = c@.subrange(b as int, c@.len() as int);
    let mut done: Vec<String> = Vec::new();
    let mut current: Vec<char> = Vec::new();
    let mut i = b;
    while i < c.len()
        invariant
            b <= i <= c@.len(),
            rest == c@.subrange(b as int, c@.len() as int),
            (done@.map_values(|s: String| s@), current@) == dot_state(c@.subrange(b as int, i as int)),
        decreases c.len() - i,
    {
        let ghost pre = c@.subrange(b as int, i + 1);
        proof {
            assert(pre.drop_last() =~= c@.subrange(b as int, i as int));
            assert(pre.last() == c@[i as int]);
        }
        if c[i] == '.' {
            if current.len() > 0 {
                done.push(string_of(&current));
                assert(done@.map_values(|s: String| s@) =~= dot_state(c@.subrange(b as int, i as int)).0.push(current@));
            }
            current = Vec::new();
        } else {
            current.push(c[i]);
        }
        i = i + 1;
    }
    assert(c@.subrange(b as int, c@.len() as int) =~= rest);
    if current.len() > 0 {
        done.push(string_of(&current));
        assert(done@.map_values(|s: String| s@) =~= dot_state(rest).0.push(current@));
    }
    done
}

/// The value a JSON path such as `$.session.token` reaches in a document: each member it
/// names in turn, the document itself for a path that names none.
pub fn value_at_path<'a>(doc: &'a JsonDoc, path: &str) -> (res: Option<&'a JsonDoc>)
    ensures
        match res {
            Some(v) => doc_at_path(*doc, spec_path_segments(path@)) == Some(*v),
            None => doc_at_path(*doc, spec_path_segments(path@)) is None,
        },
{
    let segments = path_segments(path);
    let ghost keys = segments@.map_values(|s: String| s@);
    let mut current: &JsonDoc = doc;
    let mut k: usize = 0;
    assert(keys.subrange(0, keys.len() as int) =~= keys);
    while k < segments.len()
        invariant
            k <= segments@.len(),
            keys == segments@.map_values(|s: String| s@),
            keys == spec_path_segments(path@),
            doc_at_path(*doc, keys) == doc_at_path(*current, keys.subrange(k as int, keys.len() as int)),
        decreases segments.len() - k,
    {
        let ghost rest = keys.subrange(k as int, keys.len() as int);
        assert(rest[0] == segments@[k as int]@);
        assert(rest.drop_first() =~= keys.subrange(k + 1, keys.len() as int));
        match get(current, segments[k].as_str()) {
            Some(next) => {
                current = next;
            },
            None => {
                return None;
            },
        }
        k = k + 1;
    }
    assert(keys.subrange(k as int, keys.len() as int) =~= Seq::<Seq<char>>::empty());
    Some(current)
}

/// A variable read from a JSON response body at a path such as `$.session.token`: the text
/// of a string, the JSON text of any other non-null value; nothing when the body is not
/// JSON or the path leads nowhere.
pub fn extract_response_variable(body: &str, path: &str) -> (res: Option<String>)
    ensures
        match spec_json_document(body@) {
            None => res is None,
            Some(d) => match doc_at_path(d, spec_path_segments(path@)) {
                None => res is None,
                Some(JsonDoc::Null) => res is None,
                Some(JsonDoc::Text(text)) => res matches Some(r) && r@ == text@,
                Some(_) => res is Some,
            },
        },
{
    let doc = match parse_document(body) {
        Some(d) => d,
        None => {
            return None;
        },
    };
    match value_at_path(&doc, path) {
        None => None,
        Some(JsonDoc::Null) => None,
        Some(JsonDoc::Text(text)) => Some(text.clone()),
        Some(other) => Some(json_to_text(&value_of_doc(other))),
    }
}

// ---------------------------------------------------------------------------
// Assertions
// ---------------------------------------------------------------------------

fn json_type(value: &serde_json::Value) -> &'static str {
    match json_kind(value) {
        JsonKind::Null => "null",
        JsonKind::Boolean => "boolean",
        JsonKind::Number => "number",
        JsonKind::Text => "string",
        JsonKind::Array => "array",
        JsonKind::Object => "object",
    }
}

/// Some header of the response has this name, compared in lowercase.
pub open spec fn has_header(headers: Seq<(String, String)>, lower_key: Seq<char>) -> bool {
    exists|k: int| 0 <= k < headers.len() && spec_to_lowercase(#[trigger] headers[k].0@) == lower_key
}

fn header_index(headers: &Vec<(String, String)>, key: &str) -> (res: Option<usize>)
    ensures
        match res {
            Some(k) => k < headers@.len() && spec_to_lowercase(headers@[k as int].0@) == key@,
            None => !has_header(headers@, key@),
        },
{
    let mut k: usize = 0;
    while k < headers.len()
        invariant
            k <= headers@.len(),
            forall|q: int| 0 <= q < k ==> spec_to_lowercase(headers@[q].0@) != key@,
        decreases headers.len() - k,
    {
        let lower = to_lowercase(headers[k].0.as_str());
        if str_equal(lower.as_str(), key) {
            return Some(k);
        }
        k = k + 1;
    }
    None
}

fn clone_assertion(a: &ApiAssertion) -> (res: ApiAssertion)
    ensures
        res.kind == a.kind,
        res.key == a.key,
        res.expected is Some == a.expected is Some,
{
    ApiAssertion {
        kind: a.kind.clone(),
        key: crate::model::copy_opt_string(&a.key),
        expected: match &a.expected {
            Some(v) => Some(json_clone(v)),
            None => None,
        },
    }
}

fn expected_equals(expected: &Option<serde_json::Value>, actual: &serde_json::Value) -> (res: bool)
    ensures
        expected is None ==> !res,
{
    match expected {
        Some(e) => json_equal(e, actual),
        None => false,
    }
}

fn message_with(prefix: &str, key: &str) -> (res: String)
    ensures
        res@ == prefix@ + key@,
{
    let mut out = chars_of(prefix);
    crate::text::append_chars(&mut out, &chars_of(key));
    string_of(&out)
}

/// The key of an assertion in lowercase; an absent key reads as empty.
pub open spec fn lower_key(a: ApiAssertion) -> Seq<char> {
    spec_to_lowercase(match a.key {
        Some(k) => k@,
        None => Seq::empty(),
    })
}

/// The assertion kinds a response is checked against.
pub open spec fn known_kind(kind: Seq<char>) -> bool {
    kind == "status"@ || kind == "header_exists"@ || kind == "header_equals"@ || kind == "json_path_exists"@
        || kind == "json_path_equals"@ || kind == "json_type"@ || kind == "response_time"@ || kind == "body_contains"@
}

/// Some non-null value stands in the response body at the assertion's path.
pub open spec fn json_path_present(body: Seq<char>, a: ApiAssertion) -> bool {
    match (a.key, spec_json_document(body)) {
        (Some(path), Some(d)) => match doc_at_path(d, spec_path_segments(path@)) {
            Some(v) => !(v is Null),
            None => false,
        },
        _ => false,
    }
}

/// What an assertion without an expected value gives: a body check passes (every body holds
/// the empty text), a response time passes only at zero, and a status, header value, JSON
/// value or JSON type check fails.
pub open spec fn passed_without_expected(response: ApiExecutionResponse, kind: Seq<char>) -> Option<bool> {
    if kind == "body_contains"@ {
        Some(true)
    } else if kind == "response_time"@ {
        Some(response.duration_ms == 0)
    } else if kind == "status"@ || kind == "header_equals"@ || kind == "json_path_equals"@ || kind == "json_type"@ {
        Some(false)
    } else {
        None
    }
}

fn evaluate_one(response: &ApiExecutionResponse, parsed: &Option<JsonDoc>, assertion: &ApiAssertion) -> (res: ApiAssertionResult)
    requires
        *parsed == spec_json_document(response.body@),
    ensures
        assertion.kind@ == "json_path_exists"@ ==> res.passed == json_path_present(response.body@, *assertion),
        assertion.expected is None ==> (passed_without_expected(*response, assertion.kind@) matches Some(b) ==> res.passed == b),
        res.assertion.kind == assertion.kind,
        res.assertion.key == assertion.key,
        assertion.kind@ == "header_exists"@ ==> res.passed == has_header(response.headers@, lower_key(*assertion))
            && res.message@ == "En-tête "@ + lower_key(*assertion),
        !known_kind(assertion.kind@) ==> !res.passed && res.message@ == "Assertion inconnue"@,
{
    let kind = assertion.kind.as_str();
    let empty = String::new();
    let key_text = match &assertion.key {
        Some(k) => to_lowercase(k.as_str()),
        None => to_lowercase(empty.as_str()),
    };
    let key = key_text.as_str();
    proof {
        reveal_strlit("status");
        reveal_strlit("header_exists");
        reveal_strlit("header_equals");
        reveal_strlit("json_path_exists");
        reveal_strlit("json_path_equals");
        reveal_strlit("json_type");
        reveal_strlit("response_time");
        reveal_strlit("body_contains");
        assert("status"@.len() != "header_exists"@.len());
        assert("header_equals"@[8] != "header_exists"@[8]);
        assert("body_contains"@[0] != "header_exists"@[0] && "body_contains"@[0] != "header_equals"@[0]);
        assert("body_contains"@[0] != "json_path_exists"@[0] && "body_contains"@[0] != "json_path_equals"@[0]);
        assert("body_contains"@[0] != "json_type"@[0] && "body_contains"@[0] != "response_time"@[0]);
        assert("response_time"@[0] != "header_exists"@[0] && "response_time"@[0] != "header_equals"@[0]);
        assert("response_time"@[0] != "json_path_exists"@[0] && "response_time"@[0] != "json_path_equals"@[0]);
        assert("response_time"@[0] != "json_type"@[0] && "response_time"@[0] != "status"@[0]);
        assert("body_contains"@[0] != "status"@[0]);
        assert("json_type"@.len() != "json_path_exists"@.len() && "json_type"@.len() != "json_path_equals"@.len());
        assert("json_path_exists"@[11] != "json_path_equals"@[11]);
        assert(response.body@.subrange(0, 0) =~= Seq::<char>::empty());
        assert(occurs_at(response.body@, Seq::<char>::empty(), 0));
    }
    let (passed, actual, message) = if str_equal(kind, "status") {
        let actual = json_from_u128(response.status as u128);
        (expected_equals(&assertion.expected, &actual), actual, String::from_str("Code de statut"))
    } else if str_equal(kind, "header_exists") {
        let exists = header_index(&response.headers, key).is_some();
        (exists, json_from_bool(exists), message_with("En-tête ", key))
    } else if str_equal(kind, "header_equals") {
        let actual = match header_index(&response.headers, key) {
            Some(k) => json_from_text(response.headers[k].1.as_str()),
            None => json_null(),
        };
        (expected_equals(&assertion.expected, &actual), actual, message_with("Valeur de l’en-tête ", key))
    } else if str_equal(kind, "json_path_exists") || str_equal(kind, "json_path_equals") || str_equal(kind, "json_type") {
        let found: Option<&JsonDoc> = match (&assertion.key, parsed) {
            (Some(path), Some(doc)) => value_at_path(doc, path.as_str()),
            _ => None,
        };
        let present = match found {
            Some(JsonDoc::Null) => false,
            Some(_) => true,
            None => false,
        };
        let actual = match found {
            Some(v) => value_of_doc(v),
            None => json_null(),
        };
        let passed = if str_equal(kind, "json_path_exists") {
            present
        } else if str_equal(kind, "json_type") {
            match &assertion.expected {
                Some(e) => match json_as_str(e) {
                    Some(name) => str_equal(name.as_str(), json_type(&actual)),
                    None => false,
                },
                None => false,
            }
        } else {
            expected_equals(&assertion.expected, &actual)
        };
        (passed, actual, String::from_str("Chemin JSON"))
    } else if str_equal(kind, "response_time") {
        let maximum: u128 = match &assertion.expected {
            Some(e) => match json_as_u64(e) {
                Some(m) => m as u128,
                None => 0,
            },
            None => 0,
        };
        (response.duration_ms <= maximum, json_from_u128(response.duration_ms), String::from_str("Temps de réponse"))
    } else if str_equal(kind, "body_contains") {
        let expected = match &assertion.expected {
            Some(e) => match json_as_str(e) {
                Some(text) => text,
                None => String::new(),
            },
            None => String::new(),
        };
        let found = contains(&chars_of(response.body.as_str()), &chars_of(expected.as_str()));
        (found, json_from_bool(found), String::from_str("Contenu du corps"))
    } else {
        (false, json_null(), String::from_str("Assertion inconnue"))
    };
    ApiAssertionResult { assertion: clone_assertion(assertion), passed, actual, message }
}

/// Checks a response against each assertion, in order: its status, a header's presence or
/// value (names compared in lowercase), a JSON path's presence, value or type, the response
/// time, or the body's content. An unknown kind fails.
pub fn evaluate_assertions(response: &ApiExecutionResponse, assertions: &Vec<ApiAssertion>) -> (res: Vec<ApiAssertionResult>)
    ensures
        res@.len() == assertions@.len(),
        forall|k: int| 0 <= k < res@.len() ==> (#[trigger] res@[k]).assertion.kind == assertions@[k].kind
            && res@[k].assertion.key == assertions@[k].key,
        forall|k: int| 0 <= k < res@.len() && assertions@[k].kind@ == "header_exists"@ ==> (#[trigger] res@[k]).passed
            == has_header(response.headers@, lower_key(assertions@[k])),
        forall|k: int| 0 <= k < res@.len() && !known_kind(assertions@[k].kind@) ==> !(#[trigger] res@[k]).passed,
        forall|k: int| 0 <= k < res@.len() && assertions@[k].kind@ == "json_path_exists"@ ==> (#[trigger] res@[k]).passed
            == json_path_present(response.body@, assertions@[k]),
        forall|k: int| 0 <= k < res@.len() && assertions@[k].expected is None ==> (passed_without_expected(
            *response,
            assertions@[k].kind@,
        ) matches Some(b) ==> (#[trigger] res@[k]).passed == b),
{
    let parsed = parse_document(response.body.as_str());
    let mut out: Vec<ApiAssertionResult> = Vec::new();
    let mut k: usize = 0;
    while k < assertions.len()
        invariant
            k <= assertions@.len(),
            out@.len() == k,
            forall|q: int| 0 <= q < k ==> (#[trigger] out@[q]).assertion.kind == assertions@[q].kind
                && out@[q].assertion.key == assertions@[q].key,
            forall|q: int| 0 <= q < k && assertions@[q].kind@ == "header_exists"@ ==> (#[trigger] out@[q]).passed
                == has_header(response.headers@, lower_key(assertions@[q])),
            forall|q: int| 0 <= q < k && !known_kind(assertions@[q].kind@) ==> !(#[trigger] out@[q]).passed,
            parsed == spec_json_document(response.body@),
            forall|q: int| 0 <= q < k && assertions@[q].kind@ == "json_path_exists"@ ==> (#[trigger] out@[q]).passed
                == json_path_present(response.body@, assertions@[q]),
            forall|q: int| 0 <= q < k && assertions@[q].expected is None ==> (passed_without_expected(
                *response,
                assertions@[q].kind@,
            ) matches Some(b) ==> (#[trigger] out@[q]).passed == b),
        decreases assertions.len() - k,
    {
        out.push(evaluate_one(response, &parsed, &assertions[k]));
        k = k + 1;
    }
    out
}

} // verus!
