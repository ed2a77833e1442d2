//! Discovery of the HTTP endpoints of a project from its route nodes and their source.
use vstd::prelude::*;

use crate::api::{
    ApiEndpoint, ApiParameter, ApiParameterLocation, ApiResponseMetadata, discover_auth, discover_content_types,
    discover_headers, infer_framework, normalize_path,
};
use crate::features::Feature;
use crate::findings::{Finding, FindingCategory, SourceText};
use crate::formats::{JsonLeaf, json_clone, json_object};
use crate::model::{CodeNode, NodeKind, ProjectGraph, RelationKind, SourceScope, copy_opt_string, str_equal};
use crate::patterns::regex_captures;
use crate::text::{
    append_chars, chars_of, contains, holds, lemma_seq_less_irreflexive, lemma_seq_less_total, lemma_seq_less_trans,
    seq_less, str_less, string_of, to_lowercase, trim, views,
};

verus! {

// ---------------------------------------------------------------------------
// What the source says
// ---------------------------------------------------------------------------

fn code_parameter(name: String, location: ApiParameterLocation, required: bool, source: &str) -> (res: ApiParameter)
    ensures
        res.name == name,
        res.location == location,
        res.required == required,
{
    ApiParameter { name, location, required, schema_type: String::from_str("string"), source: String::from_str(source) }
}

/// The texts of the first groups of the matches that have one, in order.
pub open spec fn first_group_names(cs: Seq<crate::patterns::CaptureView>) -> Seq<Seq<char>>
    decreases cs.len(),
{
    if cs.len() == 0 {
        Seq::empty()
    } else if cs.last().3.len() > 0 && cs.last().3[0] is Some {
        first_group_names(cs.drop_last()).push(cs.last().3[0]->0)
    } else {
        first_group_names(cs.drop_last())
    }
}

/// The names a pattern finds in the source: nothing when it does not compile.
pub open spec fn names_found(pattern: Seq<char>, source: Seq<char>) -> Seq<Seq<char>> {
    match crate::patterns::spec_regex_captures(pattern, source) {
        Some(cs) => first_group_names(cs),
        None => Seq::empty(),
    }
}

/// The two patterns of query parameters.
pub open spec fn query_patterns() -> Seq<Seq<char>> {
    seq![
        "query(?:_params)?(?:\\.get|\\[)\\(?[\\\"']([A-Za-z_][A-Za-z0-9_-]*)"@,
        "\\.query\\(\\s*[\\\"']([A-Za-z_][A-Za-z0-9_-]*)"@,
    ]
}

/// Query parameters read by the source, in the order the two query patterns find them.
pub fn discover_query_parameters(source: &str) -> (res: Vec<ApiParameter>)
    ensures
        forall|k: int| 0 <= k < res@.len() ==> (#[trigger] res@[k]).location == ApiParameterLocation::Query
            && !res@[k].required,
        res@.map_values(|q: ApiParameter| q.name@) == names_found(query_patterns()[0], source@) + names_found(
            query_patterns()[1],
            source@,
        ),
{
    let patterns = vec![
        "query(?:_params)?(?:\\.get|\\[)\\(?[\\\"']([A-Za-z_][A-Za-z0-9_-]*)",
        "\\.query\\(\\s*[\\\"']([A-Za-z_][A-Za-z0-9_-]*)",
    ];
    assert(patterns@.map_values(|t: &str| t@) =~= query_patterns());
    assert(patterns@[0]@ == query_patterns()[0]);
    assert(patterns@[1]@ == query_patterns()[1]);
    let mut out: Vec<ApiParameter> = Vec::new();
    let mut p: usize = 0;
    while p < patterns.len()
        invariant
            p <= 2,
            patterns@.len() == 2,
            patterns@[0]@ == query_patterns()[0],
            patterns@[1]@ == query_patterns()[1],
            forall|k: int| 0 <= k < out@.len() ==> (#[trigger] out@[k]).location == ApiParameterLocation::Query
                && !out@[k].required,
            out@.map_values(|q: ApiParameter| q.name@) == if p == 0 {
                Seq::<Seq<char>>::empty()
            } else if p == 1 {
                names_found(query_patterns()[0], source@)
            } else {
                names_found(query_patterns()[0], source@) + names_found(query_patterns()[1], source@)
            },
        decreases patterns.len() - p,
    {
        let ghost start = out@.map_values(|q: ApiParameter| q.name@);
        match regex_captures(patterns[p], source) {
            Some(captures) => {
                let ghost cv = captures@.map_values(|c: crate::patterns::RegexCapture| crate::patterns::capture_view(c));
                let mut c: usize = 0;
                while c < captures.len()
                    invariant
                        c <= captures@.len(),
                        cv == captures@.map_values(|x: crate::patterns::RegexCapture| crate::patterns::capture_view(x)),
                        forall|k: int| 0 <= k < out@.len() ==> (#[trigger] out@[k]).location == ApiParameterLocation::Query
                            && !out@[k].required,
                        out@.map_values(|q: ApiParameter| q.name@) == start + first_group_names(cv.subrange(0, c as int)),
                    decreases captures.len() - c,
                {
                    let ghost pre = cv.subrange(0, c + 1);
                    assert(pre.drop_last() =~= cv.subrange(0, c as int));
                    assert(pre.last() == crate::patterns::capture_view(captures@[c as int]));
                    let ghost before = out@.map_values(|q: ApiParameter| q.name@);
                    if captures[c].groups.len() > 0 {
                        match &captures[c].groups[0] {
                            Some(name) => {
                                out.push(code_parameter(name.clone(), ApiParameterLocation::Query, false, "code"));
                                assert(out@.map_values(|q: ApiParameter| q.name@) =~= before.push(name@));
                            },
                            None => {},
                        }
                    }
                    c = c + 1;
                }
                assert(cv.subrange(0, cv.len() as int) =~= cv);
            },
            None => {
                assert(start + Seq::<Seq<char>>::empty() =~= start);
            },
        }
        assert(start + names_found(patterns@[p as int]@, source@) == out@.map_values(|q: ApiParameter| q.name@));
        proof {
            if p == 0 {
                assert(Seq::<Seq<char>>::empty() + names_found(query_patterns()[0], source@) =~= names_found(query_patterns()[0], source@));
            }
        }
        p = p + 1;
    }
    out
}

/// A decimal digit.
pub open spec fn is_digit(c: char) -> bool {
    '0' <= c && c <= '9'
}

/// The value of the first `i` digits of `s`.
pub open spec fn digits_value(s: Seq<char>, i: int) -> int
    decreases i,
{
    if i <= 0 { 0 } else { digits_value(s, i - 1) * 10 + ((s[i - 1] as u32) - 48) }
}

/// The value of a text of three decimal digits, when it is at least 100.
pub open spec fn spec_three_digits(s: Seq<char>) -> Option<int> {
    if s.len() == 3 && is_digit(s[0]) && is_digit(s[1]) && is_digit(s[2]) && digits_value(s, 3) >= 100 {
        Some(digits_value(s, 3))
    } else {
        None
    }
}

/// The value of a three-digit decimal text.
fn three_digits(s: &str) -> (res: Option<u16>)
    ensures
        res matches Some(v) ==> 100 <= v < 1000,
        match res {
            Some(v) => spec_three_digits(s@) == Some(v as int),
            None => spec_three_digits(s@) is None,
        },
{
    let c = chars_of(s);
    if c.len() != 3 {
        return None;
    }
    let mut value: u16 = 0;
    let mut i: usize = 0;
    while i < 3
        invariant
            c@.len() == 3,
            c@ == s@,
            i <= 3,
            value < if i == 0 { 1int } else if i == 1 { 10int } else if i == 2 { 100int } else { 1000int },
            value == digits_value(c@, i as int),
            forall|j: int| 0 <= j < i ==> is_digit(#[trigger] c@[j]),
        decreases 3 - i,
    {
        let d = c[i];
        if !('0' <= d && d <= '9') {
            return None;
        }
        value = value * 10 + ((d as u32) - 48) as u16;
        i = i + 1;
    }
    assert(is_digit(c@[0]) && is_digit(c@[1]) && is_digit(c@[2]));
    if value < 100 { None } else { Some(value) }
}

fn insert_status(statuses: &mut Vec<u16>, s: u16)
    requires
        forall|a: int, b: int| 0 <= a < b < old(statuses)@.len() ==> old(statuses)@[a] < old(statuses)@[b],
        forall|k: int| 0 <= k < old(statuses)@.len() ==> 100 <= #[trigger] old(statuses)@[k] < 1000,
        100 <= s < 1000,
    ensures
        forall|k: int| 0 <= k < final(statuses)@.len() ==> 100 <= #[trigger] final(statuses)@[k] < 1000,
        forall|a: int, b: int| 0 <= a < b < final(statuses)@.len() ==> final(statuses)@[a] < final(statuses)@[b],
        final(statuses)@.contains(s),
        forall|x: u16| #[trigger] final(statuses)@.contains(x) ==> old(statuses)@.contains(x) || x == s,
        forall|x: u16| old(statuses)@.contains(x) ==> #[trigger] final(statuses)@.contains(x),
{
    let mut p: usize = 0;
    while p < statuses.len() && statuses[p] < s
        invariant
            p <= statuses@.len(),
            forall|q: int| 0 <= q < p ==> statuses@[q] < s,
        decreases statuses.len() - p,
    {
        p = p + 1;
    }
    if p < statuses.len() && statuses[p] == s {
        assert(statuses@[p as int] == s);
        return;
    }
    let ghost before = statuses@;
    statuses.insert(p, s);
    proof {
        assert(statuses@ == before.insert(p as int, s));
        assert(statuses@[p as int] == s);
        assert forall|a: int, b: int| 0 <= a < b < statuses@.len() implies statuses@[a] < statuses@[b] by {
            if b < p {
            } else if b == p {
                assert(statuses@[a] == before[a]);
            } else if a < p {
                assert(statuses@[b] == before[b - 1]);
            } else if a == p {
                assert(statuses@[b] == before[b - 1]);
                assert(before[p as int] > s);
            } else {
                assert(statuses@[a] == before[a - 1]);
                assert(statuses@[b] == before[b - 1]);
            }
        }
        assert forall|k: int| 0 <= k < statuses@.len() implies 100 <= #[trigger] statuses@[k] < 1000 by {
            if k < p {
                assert(statuses@[k] == before[k]);
            } else if k > p {
                assert(statuses@[k] == before[k - 1]);
            }
        }
        assert forall|x: u16| #[trigger] statuses@.contains(x) implies before.contains(x) || x == s by {
            let k = choose|k: int| 0 <= k < statuses@.len() && #[trigger] statuses@[k] == x;
            if k < p {
                assert(before[k] == x);
            } else if k > p {
                assert(before[k - 1] == x);
            }
        }
        assert forall|x: u16| before.contains(x) implies #[trigger] statuses@.contains(x) by {
            let k = choose|k: int| 0 <= k < before.len() && before[k] == x;
            if k < p {
                assert(statuses@[k] == x);
            } else {
                assert(statuses@[k + 1] == x);
            }
        }
    }
}

/// A JSON schema naming the type the code binds, with no property known.
fn named_type_schema(name: &str, role: &str) -> serde_json::Value {
    let members = vec![
        (String::from_str("type"), JsonLeaf::Text(String::from_str("object"))),
        (String::from_str("properties"), JsonLeaf::EmptyObject),
        (String::from_str("additionalProperties"), JsonLeaf::Flag(true)),
        (String::from_str("x-code-atlas-type"), JsonLeaf::Text(String::from_str(name))),
        (String::from_str("x-code-atlas-role"), JsonLeaf::Text(String::from_str(role))),
        (String::from_str("x-code-atlas-confidence"), JsonLeaf::Text(String::from_str("named_type_only"))),
    ];
    json_object(members)
}

/// A type name that says nothing of the body: a string or JSON value (in lowercase).
pub open spec fn generic_type_name(lower: Seq<char>) -> bool {
    lower == "string"@ || lower == "str"@ || lower == "value"@ || lower == "json"@
}

/// The first type the code binds through one of the patterns from position `p` on, that
/// is not a generic string or JSON type: the first group of the pattern's first match.
pub open spec fn schema_name_from(source: Seq<char>, patterns: Seq<Seq<char>>, p: int) -> Option<Seq<char>>
    decreases patterns.len() - p,
{
    if p < 0 || p >= patterns.len() {
        None
    } else {
        match crate::patterns::spec_regex_captures(patterns[p], source) {
            Some(cs) => if cs.len() > 0 && cs[0].3.len() > 0 && cs[0].3[0] is Some && !generic_type_name(
                crate::text::spec_to_lowercase(cs[0].3[0]->0),
            ) {
                Some(cs[0].3[0]->0)
            } else {
                schema_name_from(source, patterns, p + 1)
            },
            None => schema_name_from(source, patterns, p + 1),
        }
    }
}

/// The first type the code binds through one of the patterns, tried in order, that is not
/// a generic string or JSON type.
fn discover_named_schema(source: &str, patterns: &Vec<&str>, role: &str) -> (res: Option<serde_json::Value>)
    ensures
        res is Some <==> schema_name_from(source@, patterns@.map_values(|t: &str| t@), 0) is Some,
{
    let ghost pv = patterns@.map_values(|t: &str| t@);
    let mut p: usize = 0;
    while p < patterns.len()
        invariant
            p <= patterns@.len(),
            pv == patterns@.map_values(|t: &str| t@),
            schema_name_from(source@, pv, 0) == schema_name_from(source@, pv, p as int),
        decreases patterns.len() - p,
    {
        assert(pv[p as int] == patterns@[p as int]@);
        match regex_captures(patterns[p], source) {
            Some(captures) => {
                if captures.len() > 0 && captures[0].groups.len() > 0 {
                    proof {
                        let gv = crate::patterns::capture_view(captures@[0]).3;
                        assert(gv[0] == match captures@[0].groups@[0] { Some(t) => Some(t@), None => None });
                    }
                    match &captures[0].groups[0] {
                        Some(name) => {
                            let lower = to_lowercase(name.as_str());
                            let l = lower.as_str();
                            if !(str_equal(l, "string") || str_equal(l, "str") || str_equal(l, "value") || str_equal(l, "json")) {
                                return Some(named_type_schema(name.as_str(), role));
                            }
                        },
                        None => {},
                    }
                }
            },
            None => {},
        }
        p = p + 1;
    }
    None
}

/// The patterns that name the type of a request body.
pub open spec fn request_schema_patterns() -> Seq<Seq<char>> {
    seq![
        "(?:Json|web::Json)\\s*<\\s*([A-Za-z_][A-Za-z0-9_:<>]*)\\s*>"@,
        "(?:body|payload)\\s*:\\s*([A-Z][A-Za-z0-9_.$<>]*)"@,
        "(?:Body|RequestBody)\\s*\\(\\s*([A-Za-z_][A-Za-z0-9_.$]*)"@,
    ]
}

/// The patterns that name the type of a response body.
pub open spec fn response_schema_patterns() -> Seq<Seq<char>> {
    seq![
        "(?:Json|web::Json)\\s*\\(\\s*([A-Z][A-Za-z0-9_:<>]*)"@,
        "(?:ResponseEntity|Promise)\\s*<\\s*([A-Za-z_][A-Za-z0-9_.$<>]*)\\s*>"@,
        "(?:response_model\\s*=|responses?\\s*:\\s*)\\s*([A-Za-z_][A-Za-z0-9_.$]*)"@,
    ]
}

/// The schema of the body a handler reads, if the code names its type.
pub fn discover_request_schema(source: &str) -> (res: Option<serde_json::Value>)
    ensures
        res is Some <==> schema_name_from(source@, request_schema_patterns(), 0) is Some,
{
    let patterns = vec![
        "(?:Json|web::Json)\\s*<\\s*([A-Za-z_][A-Za-z0-9_:<>]*)\\s*>",
        "(?:body|payload)\\s*:\\s*([A-Z][A-Za-z0-9_.$<>]*)",
        "(?:Body|RequestBody)\\s*\\(\\s*([A-Za-z_][A-Za-z0-9_.$]*)",
    ];
    assert(patterns@.map_values(|t: &str| t@) =~= request_schema_patterns());
    discover_named_schema(source, &patterns, "request")
}

/// The schema of the body a handler returns, if the code names its type.
pub fn discover_response_schema(source: &str) -> (res: Option<serde_json::Value>)
    ensures
        res is Some <==> schema_name_from(source@, response_schema_patterns(), 0) is Some,
{
    let patterns = vec![
        "(?:Json|web::Json)\\s*\\(\\s*([A-Z][A-Za-z0-9_:<>]*)",
        "(?:ResponseEntity|Promise)\\s*<\\s*([A-Za-z_][A-Za-z0-9_.$<>]*)\\s*>",
        "(?:response_model\\s*=|responses?\\s*:\\s*)\\s*([A-Za-z_][A-Za-z0-9_.$]*)",
    ];
    assert(patterns@.map_values(|t: &str| t@) =~= response_schema_patterns());
    discover_named_schema(source, &patterns, "response")
}

/// The statuses hold `x`.
pub open spec fn holds_status(v: Seq<u16>, x: int) -> bool {
    exists|k: int| 0 <= k < v.len() && #[trigger] v[k] == x
}

/// The pattern of written statuses.
pub open spec fn status_pattern() -> Seq<char> {
    "\\b([1-5][0-9]{2})\\b"@
}

/// Some match's first group is a three-digit status `x`.
pub open spec fn written_status(cs: Seq<crate::patterns::CaptureView>, x: int) -> bool {
    exists|c: int| 0 <= c < cs.len() && cs[c].3.len() > 0 && (#[trigger] cs[c].3[0]) is Some
        && spec_three_digits(cs[c].3[0]->0) == Some(x)
}

/// The status names the code may use, in lowercase, with their statuses.
pub open spec fn named_statuses() -> Seq<(Seq<char>, u16)> {
    seq![
        ("statuscode::ok"@, 200u16),
        ("statuscode::created"@, 201u16),
        ("statuscode::bad_request"@, 400u16),
        ("statuscode::unauthorized"@, 401u16),
        ("statuscode::not_found"@, 404u16),
        ("statuscode::internal_server_error"@, 500u16),
    ]
}

/// The status `x` is written in the code or named by it (in lowercase).
pub open spec fn status_found(source: Seq<char>, x: int) -> bool {
    ||| (match crate::patterns::spec_regex_captures(status_pattern(), source) {
        Some(cs) => written_status(cs, x),
        None => false,
    })
    ||| exists|q: int| 0 <= q < 6 && crate::text::seq_contains(crate::text::spec_to_lowercase(source), #[trigger] named_statuses()[q].0)
        && named_statuses()[q].1 == x
}

/// The statuses of a handler's responses: those its code writes or names, or 200 when it
/// names none but a response schema is known.
pub open spec fn response_status(source: Seq<char>, x: int) -> bool {
    status_found(source, x) || ((forall|y: int| !#[trigger] status_found(source, y)) && schema_name_from(
        source,
        response_schema_patterns(),
        0,
    ) is Some && x == 200)
}

/// The responses a handler gives: the HTTP statuses its code writes or names, sorted and
/// each once (200 when only a response schema is known), each with the JSON content type
/// when the code mentions JSON.
pub fn discover_responses(source: &str) -> (res: Vec<ApiResponseMetadata>)
    ensures
        forall|a: int, b: int| 0 <= a < b < res@.len() ==> res@[a].status < res@[b].status,
        forall|k: int| 0 <= k < res@.len() ==> 100 <= (#[trigger] res@[k]).status < 1000,
        forall|x: int| response_status(source@, x) <==> exists|k: int| 0 <= k < res@.len() && (#[trigger] res@[k]).status == x,
        forall|k: int| 0 <= k < res@.len() ==> ((#[trigger] res@[k]).content_type is Some <==> crate::text::seq_contains(
            crate::text::spec_to_lowercase(source@),
            "json"@,
        )),
{
    let mut statuses: Vec<u16> = Vec::new();
    assert("\\b([1-5][0-9]{2})\\b"@ == status_pattern());
    match regex_captures("\\b([1-5][0-9]{2})\\b", source) {
        Some(captures) => {
            let ghost cv = captures@.map_values(|x: crate::patterns::RegexCapture| crate::patterns::capture_view(x));
            let mut c: usize = 0;
            while c < captures.len()
                invariant
                    c <= captures@.len(),
                    cv == captures@.map_values(|x: crate::patterns::RegexCapture| crate::patterns::capture_view(x)),
                    forall|a: int, b: int| 0 <= a < b < statuses@.len() ==> statuses@[a] < statuses@[b],
                    forall|k: int| 0 <= k < statuses@.len() ==> 100 <= #[trigger] statuses@[k] < 1000,
                    forall|x: u16| #[trigger] statuses@.contains(x) <==> written_status(cv.subrange(0, c as int), x as int),
                decreases captures.len() - c,
            {
                let ghost prev = cv.subrange(0, c as int);
                let ghost next = cv.subrange(0, c + 1);
                assert(next[c as int] == crate::patterns::capture_view(captures@[c as int]));
                assert forall|x: int| written_status(prev, x) implies written_status(next, x) by {
                    let j = choose|j: int| 0 <= j < prev.len() && prev[j].3.len() > 0 && (#[trigger] prev[j].3[0]) is Some
                        && spec_three_digits(prev[j].3[0]->0) == Some(x);
                    assert(next[j] == prev[j]);
                }
                let ghost st0 = statuses@;
                let mut hit = false;
                if captures[c].groups.len() > 0 {
                    proof {
                        let gv = crate::patterns::capture_view(captures@[c as int]).3;
                        assert(gv[0] == match captures@[c as int].groups@[0] { Some(t) => Some(t@), None => None });
                    }
                    match &captures[c].groups[0] {
                        Some(text) => match three_digits(text.as_str()) {
                            Some(v) => {
                                insert_status(&mut statuses, v);
                                hit = true;
                                assert(written_status(next, v as int));
                            },
                            None => {},
                        },
                        None => {},
                    }
                }
                assert forall|x: u16| #[trigger] statuses@.contains(x) <==> written_status(next, x as int) by {
                    if written_status(next, x as int) && !written_status(prev, x as int) {
                        let j = choose|j: int| 0 <= j < next.len() && next[j].3.len() > 0 && (#[trigger] next[j].3[0]) is Some
                            && spec_three_digits(next[j].3[0]->0) == Some(x as int);
                        if j < c {
                            assert(prev[j] == next[j]);
                        }
                    }
                }
                c = c + 1;
            }
            assert(cv.subrange(0, cv.len() as int) =~= cv);
        },
        None => {},
    }
    assert(forall|x: u16| #[trigger] statuses@.contains(x) <==> (match crate::patterns::spec_regex_captures(status_pattern(), source@) {
        Some(cs) => written_status(cs, x as int),
        None => false,
    }));
    let ghost code = |x: int| match crate::patterns::spec_regex_captures(status_pattern(), source@) {
        Some(cs) => written_status(cs, x),
        None => false,
    };
    let lower = to_lowercase(source);
    let l = chars_of(lower.as_str());
    let named: Vec<(&str, u16)> = vec![
        ("statuscode::ok", 200),
        ("statuscode::created", 201),
        ("statuscode::bad_request", 400),
        ("statuscode::unauthorized", 401),
        ("statuscode::not_found", 404),
        ("statuscode::internal_server_error", 500),
    ];
    assert(named@.map_values(|e: (&str, u16)| (e.0@, e.1)) =~= named_statuses());
    let mut n: usize = 0;
    while n < named.len()
        invariant
            named@.len() == 6,
            n <= 6,
            l@ == crate::text::spec_to_lowercase(source@),
            named@.map_values(|e: (&str, u16)| (e.0@, e.1)) == named_statuses(),
            forall|q: int| 0 <= q < 6 ==> 100 <= (#[trigger] named@[q]).1 < 1000,
            forall|a: int, b: int| 0 <= a < b < statuses@.len() ==> statuses@[a] < statuses@[b],
            forall|k: int| 0 <= k < statuses@.len() ==> 100 <= #[trigger] statuses@[k] < 1000,
            forall|x: u16| #[trigger] statuses@.contains(x) <==> (code(x as int) || exists|q: int| 0 <= q < n
                && crate::text::seq_contains(l@, #[trigger] named_statuses()[q].0) && named_statuses()[q].1 == x),
        decreases named.len() - n,
    {
        let (needle, status) = named[n];
        assert(named_statuses()[n as int] == (needle@, status));
        let ghost st0 = statuses@;
        let cond = contains(&l, &chars_of(needle));
        if cond {
            insert_status(&mut statuses, status);
        }
        assert(cond == crate::text::seq_contains(l@, named_statuses()[n as int].0));
        assert forall|x: u16| #[trigger] statuses@.contains(x) <==> (code(x as int) || exists|q: int| 0 <= q < n + 1
            && crate::text::seq_contains(l@, #[trigger] named_statuses()[q].0) && named_statuses()[q].1 == x) by {
            if exists|q: int| 0 <= q < n + 1 && crate::text::seq_contains(l@, #[trigger] named_statuses()[q].0)
                && named_statuses()[q].1 == x {
                let q = choose|q: int| 0 <= q < n + 1 && crate::text::seq_contains(l@, #[trigger] named_statuses()[q].0)
                    && named_statuses()[q].1 == x;
                if q < n {
                    assert(st0.contains(x));
                } else {
                    assert(cond && x == status);
                }
            }
            if code(x as int) {
                assert(st0.contains(x));
            }
            if statuses@.contains(x) {
                if st0.contains(x) {
                } else {
                    assert(cond && x == status);
                    assert(crate::text::seq_contains(l@, named_statuses()[n as int].0) && named_statuses()[n as int].1 == x);
                }
            }
        }
        n = n + 1;
    }
    proof {
        assert forall|x: int| status_found(source@, x) implies 100 <= x < 1000 by {
            if code(x) {
                let cs = crate::patterns::spec_regex_captures(status_pattern(), source@)->0;
                let j = choose|j: int| 0 <= j < cs.len() && cs[j].3.len() > 0 && (#[trigger] cs[j].3[0]) is Some
                    && spec_three_digits(cs[j].3[0]->0) == Some(x);
                let t = cs[j].3[0]->0;
                assert(is_digit(t[0]) && is_digit(t[1]) && is_digit(t[2]));
                assert(digits_value(t, 0) == 0);
                assert(digits_value(t, 1) == (t[0] as u32 - 48));
                assert(digits_value(t, 2) == (t[0] as u32 - 48) * 10 + (t[1] as u32 - 48));
                assert(digits_value(t, 3) == ((t[0] as u32 - 48) * 10 + (t[1] as u32 - 48)) * 10 + (t[2] as u32 - 48));
            } else {
                let q = choose|q: int| 0 <= q < 6 && crate::text::seq_contains(
                    crate::text::spec_to_lowercase(source@),
                    #[trigger] named_statuses()[q].0,
                ) && named_statuses()[q].1 == x;
                assert(named_statuses()[q] == named@.map_values(|e: (&str, u16)| (e.0@, e.1))[q]);
            }
        }
        assert forall|x: u16| #[trigger] statuses@.contains(x) <==> status_found(source@, x as int) by {
        }
    }
    let schema = discover_response_schema(source);
    let ghost before_default = statuses@;
    let defaulted = statuses.len() == 0 && schema.is_some();
    if defaulted {
        proof {
            assert forall|y: int| !#[trigger] status_found(source@, y) by {
                if status_found(source@, y) {
                    let yu = y as u16;
                    assert(yu as int == y);
                    assert(!before_default.contains(yu));
                }
            }
        }
        statuses.push(200);
        assert(statuses@[0] == 200u16);
    }
    proof {
        assert forall|x: int| #[trigger] response_status(source@, x) <==> holds_status(statuses@, x) by {
            if response_status(source@, x) {
                if status_found(source@, x) {
                    let xu = x as u16;
                    assert(xu as int == x);
                    assert(before_default.contains(xu));
                    if before_default.len() > 0 {
                        let k = choose|k: int| 0 <= k < before_default.len() && before_default[k] == xu;
                        assert(statuses@[k] == x);
                    }
                } else {
                    if before_default.len() > 0 {
                        assert(before_default.contains(before_default[0]));
                        assert(status_found(source@, before_default[0] as int));
                    }
                    assert(defaulted);
                    assert(statuses@[0] == x);
                }
            }
            if holds_status(statuses@, x) {
                let k = choose|k: int| 0 <= k < statuses@.len() && #[trigger] statuses@[k] == x;
                if before_default.len() > 0 {
                    assert(before_default.contains(statuses@[k]));
                } else {
                    if exists|y: int| status_found(source@, y) {
                        let y = choose|y: int| status_found(source@, y);
                        let yu = y as u16;
                        assert(yu as int == y);
                        assert(before_default.contains(yu));
                    }
                }
            }
        }
    }
    let json = contains(&l, &chars_of("json"));
    let mut out: Vec<ApiResponseMetadata> = Vec::new();
    let mut k: usize = 0;
    while k < statuses.len()
        invariant
            k <= statuses@.len(),
            out@.len() == k,
            forall|q: int| 0 <= q < k ==> (#[trigger] out@[q]).status == statuses@[q],
            forall|q: int| 0 <= q < k ==> ((#[trigger] out@[q]).content_type is Some <==> json),
        decreases statuses.len() - k,
    {
        out.push(ApiResponseMetadata {
            status: statuses[k],
            content_type: if json { Some(String::from_str("application/json")) } else { None },
            schema: match &schema {
                Some(v) => Some(json_clone(v)),
                None => None,
            },
            source: String::from_str("code"),
        });
        k = k + 1;
    }
    proof {
        assert forall|x: int| #[trigger] holds_status(statuses@, x) <==> exists|k: int|
            0 <= k < out@.len() && (#[trigger] out@[k]).status == x by {
            if holds_status(statuses@, x) {
                let k = choose|k: int| 0 <= k < statuses@.len() && #[trigger] statuses@[k] == x;
                assert(out@[k].status == x);
            }
        }
    }
    out
}

// ---------------------------------------------------------------------------
// Endpoints
// ---------------------------------------------------------------------------

/// The method and path of a route name such as `GET /users/{id}`: the two groups of the
/// first match of the route pattern over the trimmed name, when both took part.
pub open spec fn spec_route_parts(name: Seq<char>) -> Option<(Seq<char>, Seq<char>)> {
    match crate::patterns::spec_regex_captures(
        "^(GET|POST|PUT|PATCH|DELETE|OPTIONS|HEAD|ANY)\\s+(.+)$"@,
        crate::text::spec_trim(name),
    ) {
        Some(cs) => if cs.len() > 0 && cs[0].3.len() > 1 && cs[0].3[0] is Some && cs[0].3[1] is Some {
            Some((cs[0].3[0]->0, cs[0].3[1]->0))
        } else {
            None
        },
        None => None,
    }
}

/// The method and path of a route name such as `GET /users/{id}`.
fn route_parts(name: &str) -> (res: Option<(String, String)>)
    ensures
        match res {
            Some(p) => spec_route_parts(name@) == Some((p.0@, p.1@)),
            None => spec_route_parts(name@) is None,
        },
{
    let trimmed = string_of(&trim(&chars_of(name)));
    match regex_captures("^(GET|POST|PUT|PATCH|DELETE|OPTIONS|HEAD|ANY)\\s+(.+)$", trimmed.as_str()) {
        Some(captures) => {
            if captures.len() > 0 && captures[0].groups.len() > 1 {
                proof {
                    assert(crate::patterns::capture_view(captures@[0]).3[0] == match captures@[0].groups@[0] {
                        Some(t) => Some(t@),
                        None => None,
                    });
                    assert(crate::patterns::capture_view(captures@[0]).3[1] == match captures@[0].groups@[1] {
                        Some(t) => Some(t@),
                        None => None,
                    });
                }
                match (&captures[0].groups[0], &captures[0].groups[1]) {
                    (Some(method), Some(path)) => Some((method.clone(), path.clone())),
                    _ => None,
                }
            } else {
                None
            }
        },
        None => None,
    }
}

/// The name a match of the path-parameter pattern gives: its first group when it took
/// part, else its second.
pub open spec fn path_param_name(c: crate::patterns::CaptureView) -> Option<Seq<char>> {
    if c.3.len() > 0 && c.3[0] is Some {
        c.3[0]
    } else if c.3.len() > 1 {
        c.3[1]
    } else {
        None
    }
}

/// The names the matches give, in order.
pub open spec fn path_param_names(cs: Seq<crate::patterns::CaptureView>) -> Seq<Seq<char>>
    decreases cs.len(),
{
    if cs.len() == 0 {
        Seq::empty()
    } else {
        match path_param_name(cs.last()) {
            Some(n) => path_param_names(cs.drop_last()).push(n),
            None => path_param_names(cs.drop_last()),
        }
    }
}

/// The names of the parameters a path declares, as `{name}` or `:name`.
pub open spec fn spec_path_parameters(path: Seq<char>) -> Seq<Seq<char>> {
    match crate::patterns::spec_regex_captures("(?:\\{([^}/]+)\\}|:([A-Za-z_][A-Za-z0-9_]*))"@, path) {
        Some(cs) => path_param_names(cs),
        None => Seq::empty(),
    }
}

/// The parameters a path declares, as `{name}` or `:name`.
fn path_parameters(path: &str) -> (res: Vec<ApiParameter>)
    ensures
        forall|k: int| 0 <= k < res@.len() ==> (#[trigger] res@[k]).location == ApiParameterLocation::Path
            && res@[k].required,
        res@.map_values(|q: ApiParameter| q.name@) == spec_path_parameters(path@),
{
    let mut out: Vec<ApiParameter> = Vec::new();
    match regex_captures("(?:\\{([^}/]+)\\}|:([A-Za-z_][A-Za-z0-9_]*))", path) {
        Some(captures) => {
            let ghost cv = captures@.map_values(|c: crate::patterns::RegexCapture| crate::patterns::capture_view(c));
            let mut c: usize = 0;
            assert(out@.map_values(|q: ApiParameter| q.name@) =~= path_param_names(cv.subrange(0, 0)));
            while c < captures.len()
                invariant
                    c <= captures@.len(),
                    cv == captures@.map_values(|x: crate::patterns::RegexCapture| crate::patterns::capture_view(x)),
                    forall|k: int| 0 <= k < out@.len() ==> (#[trigger] out@[k]).location == ApiParameterLocation::Path
                        && out@[k].required,
                    out@.map_values(|q: ApiParameter| q.name@) == path_param_names(cv.subrange(0, c as int)),
                decreases captures.len() - c,
            {
                let ghost pre = cv.subrange(0, c + 1);
                assert(pre.drop_last() =~= cv.subrange(0, c as int));
                assert(pre.last() == crate::patterns::capture_view(captures@[c as int]));
                let ghost before = out@.map_values(|q: ApiParameter| q.name@);
                let groups = &captures[c].groups;
                proof {
                    let gv = crate::patterns::capture_view(captures@[c as int]).3;
                    assert(gv.len() == groups@.len());
                    if groups@.len() > 0 {
                        assert(gv[0] == match groups@[0] { Some(t) => Some(t@), None => None });
                    }
                    if groups@.len() > 1 {
                        assert(gv[1] == match groups@[1] { Some(t) => Some(t@), None => None });
                    }
                }
                let name = if groups.len() > 0 && groups[0].is_some() {
                    copy_opt_string(&groups[0])
                } else if groups.len() > 1 {
                    copy_opt_string(&groups[1])
                } else {
                    None
                };
                match name {
                    Some(n) => {
                        let ghost nv = n@;
                        out.push(code_parameter(n, ApiParameterLocation::Path, true, "route"));
                        assert(out@.map_values(|q: ApiParameter| q.name@) =~= before.push(nv));
                    },
                    None => {},
                }
                c = c + 1;
            }
            assert(cv.subrange(0, cv.len() as int) =~= cv);
        },
        None => {
            assert(out@.map_values(|q: ApiParameter| q.name@) =~= Seq::<Seq<char>>::empty());
        },
    }
    out
}

fn same_location(a: ApiParameterLocation, b: ApiParameterLocation) -> (res: bool)
    ensures
        res == (a == b),
{
    a == b
}

/// Where a parameter goes among sorted ones, from position `at` on: before the first one
/// whose name comes after its own.
pub open spec fn param_insert_pos(sorted: Seq<ApiParameter>, p: ApiParameter, at: int) -> int
    decreases sorted.len() - at,
{
    if at < 0 || at >= sorted.len() || seq_less(p.name@, sorted[at].name@) {
        at
    } else {
        param_insert_pos(sorted, p, at + 1)
    }
}

/// The parameters sorted by name by insertion, keeping the order of equal names.
pub open spec fn sort_params(s: Seq<ApiParameter>) -> Seq<ApiParameter>
    decreases s.len(),
{
    if s.len() == 0 {
        Seq::empty()
    } else {
        let r = sort_params(s.drop_last());
        r.insert(param_insert_pos(r, s.last(), 0), s.last())
    }
}

/// The parameters without each one that repeats the name and location of the one kept
/// before it.
pub open spec fn dedup_params(s: Seq<ApiParameter>) -> Seq<ApiParameter>
    decreases s.len(),
{
    if s.len() == 0 {
        Seq::empty()
    } else {
        let r = dedup_params(s.drop_last());
        if r.len() > 0 && r.last().name@ == s.last().name@ && r.last().location == s.last().location {
            r
        } else {
            r.push(s.last())
        }
    }
}

/// Sorts the parameters by name, keeping the order of equal names, then drops each
/// parameter that repeats the name and location of the one before it.
fn sort_and_dedup_parameters(params: Vec<ApiParameter>) -> (res: Vec<ApiParameter>)
    ensures
        res@ == dedup_params(sort_params(params@)),
{
    let ghost all = params@;
    let mut input = params;
    let mut sorted: Vec<ApiParameter> = Vec::new();
    let ghost mut done: int = 0;
    assert(all.subrange(0, 0) =~= Seq::<ApiParameter>::empty());
    assert(all.subrange(0, all.len() as int) =~= all);
    while input.len() > 0
        invariant
            0 <= done <= all.len(),
            input@ == all.subrange(done, all.len() as int),
            sorted@ == sort_params(all.subrange(0, done)),
        decreases input@.len(),
    {
        let p = input.remove(0);
        assert(p == all[done]);
        let mut at: usize = 0;
        while at < sorted.len() && !str_less(p.name.as_str(), sorted[at].name.as_str())
            invariant
                at <= sorted@.len(),
                param_insert_pos(sorted@, p, 0) == param_insert_pos(sorted@, p, at as int),
            decreases sorted.len() - at,
        {
            at = at + 1;
        }
        proof {
            let pre = all.subrange(0, done + 1);
            assert(pre.drop_last() =~= all.subrange(0, done));
            assert(pre.last() == p);
            assert(all.subrange(done + 1, all.len() as int) =~= all.subrange(done, all.len() as int).drop_first());
        }
        sorted.insert(at, p);
        proof {
            done = done + 1;
        }
    }
    let ghost full = sorted@;
    let ghost mut taken: int = 0;
    let mut out: Vec<ApiParameter> = Vec::new();
    assert(full.subrange(0, 0) =~= Seq::<ApiParameter>::empty());
    assert(full.subrange(0, full.len() as int) =~= full);
    while sorted.len() > 0
        invariant
            0 <= taken <= full.len(),
            sorted@ == full.subrange(taken, full.len() as int),
            out@ == dedup_params(full.subrange(0, taken)),
        decreases sorted@.len(),
    {
        let p = sorted.remove(0);
        assert(p == full[taken]);
        let repeat = out.len() > 0 && str_equal(out[out.len() - 1].name.as_str(), p.name.as_str())
            && same_location(out[out.len() - 1].location, p.location);
        proof {
            let pre = full.subrange(0, taken + 1);
            assert(pre.drop_last() =~= full.subrange(0, taken));
            assert(pre.last() == p);
            assert(full.subrange(taken + 1, full.len() as int) =~= full.subrange(taken, full.len() as int).drop_first());
        }
        if !repeat {
            out.push(p);
        }
        proof {
            taken = taken + 1;
        }
    }
    out
}

/// The edge is a handling, routing, call or use relation whose target is a handler,
/// controller, function, method or service of the graph.
pub open spec fn handles_route(g: ProjectGraph, e: int) -> bool {
    &&& (match g.edges@[e].relation {
        RelationKind::HandledBy | RelationKind::RoutesTo | RelationKind::Calls | RelationKind::Uses => true,
        _ => false,
    })
    &&& g.has_node(g.edges@[e].target_id@)
    &&& (match g.nodes@[g.node_index(g.edges@[e].target_id@)].kind {
        NodeKind::Handler | NodeKind::Controller | NodeKind::Function | NodeKind::Method | NodeKind::Service => true,
        _ => false,
    })
}

/// The node that handles a route: the first target, through a handling, routing, call or
/// use relation, that is a handler, controller, function, method or service.
fn route_handler(graph: &ProjectGraph, id: &str) -> (res: Option<usize>)
    ensures
        res matches Some(h) ==> h < graph.nodes@.len(),
        match res {
            Some(h) => exists|e: int| {
                &&& 0 <= e < graph.edges@.len()
                &&& graph.edges@[e].source_id@ == id@
                &&& #[trigger] handles_route(*graph, e)
                &&& h as int == graph.node_index(graph.edges@[e].target_id@)
                &&& forall|e2: int| 0 <= e2 < e && graph.edges@[e2].source_id@ == id@ ==> !handles_route(*graph, e2)
            },
            None => forall|e: int| 0 <= e < graph.edges@.len() && graph.edges@[e].source_id@ == id@ ==> !handles_route(*graph, e),
        },
{
    let outgoing = graph.outgoing_edges(id);
    let mut k: usize = 0;
    while k < outgoing.len()
        invariant
            k <= outgoing@.len(),
            forall|q: int| 0 <= q < outgoing@.len() ==> outgoing@[q] < graph.edges@.len(),
            forall|q: int| 0 <= q < outgoing@.len() ==> graph.edges@[outgoing@[q] as int].source_id@ == id@,
            forall|a: int, b: int| 0 <= a < b < outgoing@.len() ==> outgoing@[a] < outgoing@[b],
            forall|e: int| 0 <= e < graph.edges@.len() && graph.edges@[e].source_id@ == id@ ==> outgoing@.contains(e as usize),
            forall|q: int| 0 <= q < k ==> !handles_route(*graph, #[trigger] outgoing@[q] as int),
        decreases outgoing.len() - k,
    {
        let edge = &graph.edges[outgoing[k]];
        let followed = match edge.relation {
            RelationKind::HandledBy | RelationKind::RoutesTo | RelationKind::Calls | RelationKind::Uses => true,
            _ => false,
        };
        if followed {
            match graph.find_node_index(edge.target_id.as_str()) {
                Some(t) => {
                    let handles = match graph.nodes[t].kind {
                        NodeKind::Handler | NodeKind::Controller | NodeKind::Function | NodeKind::Method
                        | NodeKind::Service => true,
                        _ => false,
                    };
                    if handles {
                        proof {
                            let e = outgoing@[k as int] as int;
                            assert(handles_route(*graph, e));
                            assert forall|e2: int| 0 <= e2 < e && graph.edges@[e2].source_id@ == id@ implies !handles_route(
                                *graph,
                                e2,
                            ) by {
                                assert(graph.edges.len() == graph.edges@.len());
                                let eu = e2 as usize;
                                assert(eu as int == e2);
                                assert(outgoing@.contains(eu));
                                let j = choose|j: int| 0 <= j < outgoing@.len() && outgoing@[j] == eu;
                                if j >= k {
                                    if j > k {
                                        assert(outgoing@[k as int] < outgoing@[j]);
                                    }
                                }
                                assert(j < k);
                                assert(!handles_route(*graph, outgoing@[j] as int));
                            }
                        }
                        return Some(t);
                    }
                },
                None => {},
            }
        }
        assert(!handles_route(*graph, outgoing@[k as int] as int));
        k = k + 1;
    }
    proof {
        assert forall|e: int| 0 <= e < graph.edges@.len() && graph.edges@[e].source_id@ == id@ implies !handles_route(
            *graph,
            e,
        ) by {
            assert(graph.edges.len() == graph.edges@.len());
            let eu = e as usize;
            assert(eu as int == e);
            assert(outgoing@.contains(eu));
            let j = choose|j: int| 0 <= j < outgoing@.len() && outgoing@[j] == eu;
            assert(!handles_route(*graph, outgoing@[j] as int));
        }
    }
    None
}

/// The first segment of `t` from `start` on, scanning from `i`, that is not empty and not a
/// parameter.
pub open spec fn tag_scan(t: Seq<char>, start: int, i: int) -> Option<Seq<char>>
    decreases t.len() - i,
{
    if i < start || start < 0 || i >= t.len() {
        if 0 <= start < t.len() && t[start] != '{' { Some(t.subrange(start, t.len() as int)) } else { None }
    } else if t[i] == '/' {
        if i > start && t[start] != '{' { Some(t.subrange(start, i)) } else { tag_scan(t, i + 1, i + 1) }
    } else {
        tag_scan(t, start, i + 1)
    }
}

/// The tag of a path: its first segment that is not a parameter, or `root`.
pub open spec fn spec_path_tag(path: Seq<char>) -> Seq<char> {
    match tag_scan(crate::api::strip_char(path, '/'), 0, 0) {
        Some(t) => t,
        None => "root"@,
    }
}

/// The tag of a path: its first segment that is not a parameter, or `root`.
fn path_tag(path: &str) -> (res: String)
    ensures
        res@ == spec_path_tag(path@),
{
    let c = chars_of(path);
    let n = c.len();
    let mut a: usize = 0;
    let mut b: usize = c.len();
    assert(c@.subrange(0, n as int) =~= c@);
    while a < b && c[a] == '/'
        invariant
            a <= b,
            b == c@.len(),
            n == b,
            crate::api::strip_leading(c@, '/') == crate::api::strip_leading(c@.subrange(a as int, n as int), '/'),
        decreases b - a,
    {
        assert(c@.subrange(a as int, n as int).drop_first() =~= c@.subrange(a + 1, n as int));
        a = a + 1;
    }
    let ghost lead = c@.subrange(a as int, n as int);
    assert(lead.subrange(0, (n - a) as int) =~= lead);
    while b > a && c[b - 1] == '/'
        invariant
            a <= b <= c@.len(),
            n == c@.len(),
            lead == c@.subrange(a as int, n as int),
            crate::api::strip_trailing(lead, '/') == crate::api::strip_trailing(c@.subrange(a as int, b as int), '/'),
        decreases b,
    {
        assert(c@.subrange(a as int, b as int).drop_last() =~= c@.subrange(a as int, b - 1));
        b = b - 1;
    }
    let ghost t = c@.subrange(a as int, b as int);
    assert(t == crate::api::strip_char(c@, '/'));
    let mut start = a;
    let mut i = a;
    while i < b
        invariant
            a <= start <= i <= b,
            b <= c@.len(),
            t == c@.subrange(a as int, b as int),
            c@ == path@,
            t == crate::api::strip_char(path@, '/'),
            tag_scan(t, 0, 0) == tag_scan(t, start - a, i - a),
        decreases b - i,
    {
        assert(t[i - a] == c@[i as int]);
        assert(t[start - a] == c@[start as int]);
        if c[i] == '/' {
            if i > start && c[start] != '{' {
                assert(t.subrange(start - a, i - a) =~= c@.subrange(start as int, i as int));
                return string_of(&crate::text::slice_chars(&c, start, i));
            }
            start = i + 1;
        }
        i = i + 1;
    }
    if b > start && c[start] != '{' {
        assert(t[start - a] == c@[start as int]);
        assert(t.subrange(start - a, b - a) =~= c@.subrange(start as int, b as int));
        return string_of(&crate::text::slice_chars(&c, start, b));
    }
    String::from_str("root")
}

/// The lowercase name of a source scope.
fn scope_name(scope: SourceScope) -> &'static str {
    match scope {
        SourceScope::Project => "project",
        SourceScope::WorkspacePackage => "workspacepackage",
        SourceScope::ExternalDependency => "externaldependency",
        SourceScope::Generated => "generated",
    }
}

/// The text of the first source entry for the path, empty when there is none or no path.
pub open spec fn source_text_for(sources: Seq<SourceText>, path: Option<String>) -> Seq<char> {
    match path {
        Some(p) => match crate::framework::source_from(sources, p@, 0) {
            Some(t) => t,
            None => Seq::empty(),
        },
        None => Seq::empty(),
    }
}

fn source_for(sources: &Vec<SourceText>, path: &Option<String>) -> (res: String)
    ensures
        res@ == source_text_for(sources@, *path),
{
    match path {
        Some(p) => {
            let mut i: usize = 0;
            while i < sources.len()
                invariant
                    i <= sources@.len(),
                    *path == Some(*p),
                    crate::framework::source_from(sources@, p@, 0) == crate::framework::source_from(sources@, p@, i as int),
                decreases sources.len() - i,
            {
                if str_equal(sources[i].path.as_str(), p.as_str()) {
                    assert(crate::framework::source_from(sources@, p@, i as int) == Some(sources@[i as int].text@));
                    let t = sources[i].text.clone();
                    assert(t@ == sources@[i as int].text@);
                    return t;
                }
                i = i + 1;
            }
            String::new()
        },
        None => String::new(),
    }
}

/// `e` is the first edge leaving `id` that binds a route to its handler.
pub open spec fn first_handling_edge(g: ProjectGraph, id: Seq<char>, e: int) -> bool {
    &&& 0 <= e < g.edges@.len()
    &&& g.edges@[e].source_id@ == id
    &&& handles_route(g, e)
    &&& forall|e2: int| 0 <= e2 < e && g.edges@[e2].source_id@ == id ==> !handles_route(g, e2)
}

/// The id of the handler bound to the route node `id`: the node the first handling edge
/// leads to.
pub open spec fn handler_id_of(g: ProjectGraph, id: Seq<char>) -> Option<Seq<char>> {
    if exists|e: int| first_handling_edge(g, id, e) {
        let e = choose|e: int| first_handling_edge(g, id, e);
        Some(g.nodes@[g.node_index(g.edges@[e].target_id@)].id@)
    } else {
        None
    }
}

/// The ids list the node or the handler.
pub open spec fn names_node_or_handler(ids: Seq<String>, node_id: Seq<char>, handler: Option<Seq<char>>) -> bool {
    views(ids).contains(node_id) || (handler matches Some(h) && views(ids).contains(h))
}

/// The ids of the first `n` findings about the node or its handler, of the security
/// category (`security`) or of any other.
pub open spec fn concerned_finding_ids(findings: Seq<Finding>, node_id: Seq<char>, handler: Option<Seq<char>>, n: int, security: bool) -> Seq<Seq<char>>
    decreases n,
{
    if n <= 0 {
        seq![]
    } else {
        let f = findings[n - 1];
        concerned_finding_ids(findings, node_id, handler, n - 1, security) + if names_node_or_handler(f.node_ids@, node_id, handler)
            && (f.category == FindingCategory::Security) == security {
            seq![f.id@]
        } else {
            seq![]
        }
    }
}

/// The ids of the first `n` features that hold the node or its handler.
pub open spec fn concerned_feature_ids(features: Seq<Feature>, node_id: Seq<char>, handler: Option<Seq<char>>, n: int) -> Seq<Seq<char>>
    decreases n,
{
    if n <= 0 {
        seq![]
    } else {
        concerned_feature_ids(features, node_id, handler, n - 1) + if names_node_or_handler(features[n - 1].node_ids@, node_id, handler) {
            seq![features[n - 1].id@]
        } else {
            seq![]
        }
    }
}

/// What the endpoint of route node `i` links to: its handler, whether tests reach that
/// handler, the features and the security and other findings about the node or the handler,
/// and its source scope.
pub open spec fn endpoint_links(g: ProjectGraph, i: int, e: ApiEndpoint, features: Seq<Feature>, findings: Seq<Finding>) -> bool {
    let node = g.nodes@[i];
    let handler = handler_id_of(g, node.id@);
    &&& match e.handler_node_id {
        Some(h) => handler == Some(h@),
        None => handler is None,
    }
    &&& e.has_tests == (handler matches Some(h) && spec_tested_handler(g, h))
    &&& views(e.feature_ids@) == concerned_feature_ids(features, node.id@, handler, features.len() as int)
    &&& views(e.security_finding_ids@) == concerned_finding_ids(findings, node.id@, handler, findings.len() as int, true)
    &&& views(e.quality_finding_ids@) == concerned_finding_ids(findings, node.id@, handler, findings.len() as int, false)
    &&& !(e.method@ == "POST"@ || e.method@ == "PUT"@ || e.method@ == "PATCH"@) ==> e.request_schema is None
}

proof fn lemma_first_handling_edge_unique(g: ProjectGraph, id: Seq<char>, a: int, b: int)
    requires
        first_handling_edge(g, id, a),
        first_handling_edge(g, id, b),
    ensures
        a == b,
{
}

fn concerns(ids: &Vec<String>, node: &CodeNode, handler: &Option<&CodeNode>) -> (res: bool)
    ensures
        res == names_node_or_handler(ids@, node.id@, match handler {
            Some(h) => Some(h.id@),
            None => None,
        }),
{
    holds(ids, node.id.as_str()) || match handler {
        Some(h) => holds(ids, h.id.as_str()),
        None => false,
    }
}

/// The edge comes from a node whose path names test code.
pub open spec fn edge_from_test(g: ProjectGraph, e: int) -> bool {
    g.has_node(g.edges@[e].source_id@) && (g.nodes@[g.node_index(g.edges@[e].source_id@)].path matches Some(p)
        && crate::context_pack::test_like(p@))
}

/// Some relation reaches the handler from a node whose path names test code.
pub open spec fn spec_tested_handler(g: ProjectGraph, id: Seq<char>) -> bool {
    exists|e: int| 0 <= e < g.edges@.len() && g.edges@[e].target_id@ == id && #[trigger] edge_from_test(g, e)
}

fn tested_handler(graph: &ProjectGraph, handler: &CodeNode) -> (res: bool)
    ensures
        res == spec_tested_handler(*graph, handler.id@),
{
    let incoming = graph.incoming_edges(handler.id.as_str());
    let mut k: usize = 0;
    while k < incoming.len()
        invariant
            k <= incoming@.len(),
            forall|q: int| 0 <= q < incoming@.len() ==> incoming@[q] < graph.edges@.len(),
            forall|q: int| 0 <= q < incoming@.len() ==> graph.edges@[incoming@[q] as int].target_id@ == handler.id@,
            forall|q: int| 0 <= q < k ==> !edge_from_test(*graph, #[trigger] incoming@[q] as int),
        decreases incoming.len() - k,
    {
        match graph.find_node(graph.edges[incoming[k]].source_id.as_str()) {
            Some(caller) => match &caller.path {
                Some(p) => {
                    let l = chars_of(to_lowercase(p.as_str()).as_str());
                    if contains(&l, &chars_of("test")) || contains(&l, &chars_of("spec")) {
                        let ghost e = incoming@[k as int] as int;
                        assert(graph.edges@[e].target_id@ == handler.id@);
                        assert(edge_from_test(*graph, e));
                        assert(0 <= e < graph.edges@.len() && graph.edges@[e].target_id@ == handler.id@ && edge_from_test(*graph, e));
                        return true;
                    }
                },
                None => {},
            },
            None => {},
        }
        k = k + 1;
    }
    proof {
        if spec_tested_handler(*graph, handler.id@) {
            let e = choose|e: int| 0 <= e < graph.edges@.len() && graph.edges@[e].target_id@ == handler.id@
                && #[trigger] edge_from_test(*graph, e);
            assert(graph.edges.len() == graph.edges@.len());
            let eu = e as usize;
            assert(eu as int == e);
            assert(incoming@.contains(eu));
            let q = choose|q: int| 0 <= q < incoming@.len() && incoming@[q] == eu;
            assert(incoming@[q] as int == e);
            assert(!edge_from_test(*graph, incoming@[q] as int));
        }
    }
    false
}

/// An endpoint discovered from a first-party route node.
pub open spec fn endpoint_of_node(g: ProjectGraph, e: ApiEndpoint, project_id: Seq<char>) -> bool {
    exists|i: int| 0 <= i < g.nodes@.len() && #[trigger] g.nodes@[i].id == e.id
        && (g.nodes@[i].kind == NodeKind::ApiEndpoint || g.nodes@[i].kind == NodeKind::Route)
        && g.nodes@[i].source_scope.spec_library_eligible()
        && e.name == g.nodes@[i].name && e.source_path == g.nodes@[i].path
        && e.project_id@ == project_id && e.provenance@ == "code"@
}

/// The endpoint was built from route node `i`: its id, name, source, method and normalized
/// path come from the node, and it links to what concerns the node (see `endpoint_links`).
pub open spec fn endpoint_from(g: ProjectGraph, i: int, e: ApiEndpoint, project_id: Seq<char>, features: Seq<Feature>, findings: Seq<Finding>) -> bool {
    &&& 0 <= i < g.nodes@.len()
    &&& g.nodes@[i].id == e.id
    &&& (g.nodes@[i].kind == NodeKind::ApiEndpoint || g.nodes@[i].kind == NodeKind::Route)
    &&& g.nodes@[i].source_scope.spec_library_eligible()
    &&& e.name == g.nodes@[i].name && e.source_path == g.nodes@[i].path
    &&& e.project_id@ == project_id && e.provenance@ == "code"@
    &&& spec_route_parts(g.nodes@[i].name@) matches Some(parts) && e.method@ == parts.0
        && e.path@ == crate::api::spec_normalize_path(parts.1)
    &&& endpoint_links(g, i, e, features, findings)
}

/// Some route node of the graph built the endpoint.
pub open spec fn endpoint_built(g: ProjectGraph, e: ApiEndpoint, project_id: Seq<char>, features: Seq<Feature>, findings: Seq<Finding>) -> bool {
    exists|i: int| #[trigger] endpoint_from(g, i, e, project_id, features, findings)
}

/// Endpoint `a` sorts before endpoint `b`: by path, then by method.
pub open spec fn endpoint_before(a: ApiEndpoint, b: ApiEndpoint) -> bool {
    seq_less(a.path@, b.path@) || (a.path@ == b.path@ && seq_less(a.method@, b.method@))
}

fn before_exec(a: &ApiEndpoint, b: &ApiEndpoint) -> (res: bool)
    ensures
        res == endpoint_before(*a, *b),
{
    str_less(a.path.as_str(), b.path.as_str())
        || (str_equal(a.path.as_str(), b.path.as_str()) && str_less(a.method.as_str(), b.method.as_str()))
}

proof fn lemma_endpoint_order(a: ApiEndpoint, b: ApiEndpoint, c: ApiEndpoint)
    ensures
        endpoint_before(a, b) && endpoint_before(b, c) ==> endpoint_before(a, c),
        !endpoint_before(a, a),
        endpoint_before(a, b) || endpoint_before(b, a) || (a.path@ == b.path@ && a.method@ == b.method@),
        endpoint_before(a, b) ==> !endpoint_before(b, a),
{
    lemma_seq_less_irreflexive(a.path@);
    lemma_seq_less_irreflexive(a.method@);
    lemma_seq_less_total(a.path@, b.path@);
    lemma_seq_less_total(a.method@, b.method@);
    if seq_less(a.path@, b.path@) && seq_less(b.path@, c.path@) {
        lemma_seq_less_trans(a.path@, b.path@, c.path@);
    }
    if seq_less(a.method@, b.method@) && seq_less(b.method@, c.method@) {
        lemma_seq_less_trans(a.method@, b.method@, c.method@);
    }
    if seq_less(a.path@, b.path@) && seq_less(b.path@, a.path@) {
        lemma_seq_less_trans(a.path@, b.path@, a.path@);
    }
    if seq_less(a.method@, b.method@) && seq_less(b.method@, a.method@) {
        lemma_seq_less_trans(a.method@, b.method@, a.method@);
    }
}

/// Strictly ordered by path then method: each method and path once.
pub open spec fn endpoints_ordered(v: Seq<ApiEndpoint>) -> bool {
    forall|a: int, b: int| 0 <= a < b < v.len() ==> endpoint_before(#[trigger] v[a], #[trigger] v[b])
}

/// The first position from `p` on whose endpoint does not sort before `e`.
pub open spec fn endpoint_position(v: Seq<ApiEndpoint>, e: ApiEndpoint, p: int) -> int
    decreases v.len() - p,
{
    if p < 0 || p >= v.len() || !endpoint_before(v[p], e) {
        p
    } else {
        endpoint_position(v, e, p + 1)
    }
}

/// The endpoints hold one with the method and path.
pub open spec fn has_route(v: Seq<ApiEndpoint>, method: Seq<char>, path: Seq<char>) -> bool {
    exists|k: int| 0 <= k < v.len() && (#[trigger] v[k]).method@ == method && v[k].path@ == path
}

/// Inserts an endpoint in order, unless one with its method and path is already there.
fn insert_endpoint(
    out: &mut Vec<ApiEndpoint>,
    e: ApiEndpoint,
    Ghost(g): Ghost<ProjectGraph>,
    Ghost(project_id): Ghost<Seq<char>>,
    Ghost(features): Ghost<Seq<Feature>>,
    Ghost(findings): Ghost<Seq<Finding>>,
)
    requires
        endpoints_ordered(old(out)@),
        forall|k: int| 0 <= k < old(out)@.len() ==> endpoint_built(g, #[trigger] old(out)@[k], project_id, features, findings),
        endpoint_built(g, e, project_id, features, findings),
    ensures
        endpoints_ordered(final(out)@),
        forall|k: int| 0 <= k < final(out)@.len() ==> endpoint_built(g, #[trigger] final(out)@[k], project_id, features, findings),
        ({
            let p = endpoint_position(old(out)@, e, 0);
            if 0 <= p < old(out)@.len() && old(out)@[p].path@ == e.path@ && old(out)@[p].method@ == e.method@ {
                final(out)@ == old(out)@
            } else {
                final(out)@ == old(out)@.insert(p, e)
            }
        }),
        has_route(final(out)@, e.method@, e.path@),
        forall|m: Seq<char>, q: Seq<char>| has_route(old(out)@, m, q) ==> #[trigger] has_route(final(out)@, m, q),
{
    let mut p: usize = 0;
    while p < out.len() && before_exec(&out[p], &e)
        invariant
            p <= out@.len(),
            out@ == old(out)@,
            forall|q: int| 0 <= q < p ==> endpoint_before(#[trigger] out@[q], e),
            endpoint_position(old(out)@, e, 0) == endpoint_position(old(out)@, e, p as int),
        decreases out.len() - p,
    {
        p = p + 1;
    }
    if p < out.len() && str_equal(out[p].path.as_str(), e.path.as_str()) && str_equal(out[p].method.as_str(), e.method.as_str()) {
        assert(out@[p as int].method@ == e.method@ && out@[p as int].path@ == e.path@);
        return;
    }
    proof {
        if p < out@.len() {
            lemma_endpoint_order(out@[p as int], e, e);
            assert(endpoint_before(e, out@[p as int]));
        }
    }
    let ghost before = out@;
    out.insert(p, e);
    proof {
        assert(out@ == before.insert(p as int, e));
        assert forall|a: int, b: int| 0 <= a < b < out@.len() implies endpoint_before(#[trigger] out@[a], #[trigger] out@[b]) by {
            if b < p {
                assert(out@[a] == before[a] && out@[b] == before[b]);
            } else if b == p {
                assert(out@[a] == before[a]);
            } else if a < p {
                assert(out@[a] == before[a] && out@[b] == before[b - 1]);
                lemma_endpoint_order(before[a], e, before[b - 1]);
                if b - 1 > p {
                    lemma_endpoint_order(e, before[p as int], before[b - 1]);
                }
            } else if a == p {
                assert(out@[b] == before[b - 1]);
                if b - 1 > p {
                    lemma_endpoint_order(e, before[p as int], before[b - 1]);
                }
            } else {
                assert(out@[a] == before[a - 1] && out@[b] == before[b - 1]);
            }
        }
        assert forall|k: int| 0 <= k < out@.len() implies endpoint_built(g, #[trigger] out@[k], project_id, features, findings) by {
            if k < p {
                assert(out@[k] == before[k]);
            } else if k > p {
                assert(out@[k] == before[k - 1]);
            }
        }
        assert(out@[p as int] == e);
        assert forall|m: Seq<char>, q: Seq<char>| has_route(before, m, q) implies #[trigger] has_route(out@, m, q) by {
            let k = choose|k: int| 0 <= k < before.len() && (#[trigger] before[k]).method@ == m && before[k].path@ == q;
            if k < p {
                assert(out@[k] == before[k]);
            } else {
                assert(out@[k + 1] == before[k]);
            }
        }
    }
}

/// The endpoint a route node declares, if its name is a method and a path.
fn endpoint_for(
    project_id: &str,
    graph: &ProjectGraph,
    i: usize,
    features: &Vec<Feature>,
    findings: &Vec<Finding>,
    sources: &Vec<SourceText>,
) -> (res: Option<ApiEndpoint>)
    requires
        i < graph.nodes@.len(),
        graph.nodes@[i as int].kind == NodeKind::ApiEndpoint || graph.nodes@[i as int].kind == NodeKind::Route,
        graph.nodes@[i as int].source_scope.spec_library_eligible(),
    ensures
        res matches Some(e) ==> endpoint_of_node(*graph, e, project_id@),
        res matches Some(e) ==> endpoint_links(*graph, i as int, e, features@, findings@),
        res matches Some(e) ==> endpoint_from(*graph, i as int, e, project_id@, features@, findings@),
        res is Some <==> spec_route_parts(graph.nodes@[i as int].name@) is Some,
        res matches Some(e) ==> {
            let parts = spec_route_parts(graph.nodes@[i as int].name@)->0;
            let lower = crate::text::spec_to_lowercase(source_text_for(sources@, graph.nodes@[i as int].path));
            &&& e.method@ == parts.0
            &&& e.path@ == crate::api::spec_normalize_path(parts.1)
            &&& e.tags@.map_values(|t: String| t@) == seq![spec_path_tag(e.path@)]
            &&& e.transport@ == if graph.nodes@[i as int].kind == NodeKind::Route && crate::text::seq_contains(lower, "websocket"@) {
                "websocket"@
            } else if crate::text::seq_contains(lower, "text/event-stream"@) {
                "sse"@
            } else {
                "http"@
            }
            &&& e.source_start_line == graph.nodes@[i as int].start_line
            &&& e.source_end_line == graph.nodes@[i as int].end_line
        },
{
    let node = &graph.nodes[i];
    let (method, raw_path) = match route_parts(node.name.as_str()) {
        Some(parts) => parts,
        None => {
            return None;
        },
    };
    let path = normalize_path(raw_path.as_str());
    let source = source_for(sources, &node.path);
    let handler_index = route_handler(graph, node.id.as_str());
    let handler: Option<&CodeNode> = match handler_index {
        Some(h) => Some(&graph.nodes[h]),
        None => None,
    };
    let ghost hid: Option<Seq<char>> = match handler {
        Some(hn) => Some(hn.id@),
        None => None,
    };
    proof {
        match handler_index {
            Some(h) => {
                let e = choose|e: int| {
                    &&& 0 <= e < graph.edges@.len()
                    &&& graph.edges@[e].source_id@ == node.id@
                    &&& #[trigger] handles_route(*graph, e)
                    &&& h as int == graph.node_index(graph.edges@[e].target_id@)
                    &&& forall|e2: int| 0 <= e2 < e && graph.edges@[e2].source_id@ == node.id@ ==> !handles_route(*graph, e2)
                };
                assert(first_handling_edge(*graph, node.id@, e));
                let c = choose|c: int| first_handling_edge(*graph, node.id@, c);
                lemma_first_handling_edge_unique(*graph, node.id@, e, c);
                assert(hid == handler_id_of(*graph, node.id@));
            },
            None => {
                if exists|e: int| first_handling_edge(*graph, node.id@, e) {
                    let e = choose|e: int| first_handling_edge(*graph, node.id@, e);
                    assert(handles_route(*graph, e));
                }
                assert(hid == handler_id_of(*graph, node.id@));
            },
        }
    }
    let mut parameters = path_parameters(path.as_str());
    let query = discover_query_parameters(source.as_str());
    let headers = discover_headers(source.as_str());
    let mut q: usize = 0;
    while q < query.len()
        decreases query.len() - q,
    {
        parameters.push(code_parameter(query[q].name.clone(), query[q].location, query[q].required, "code"));
        q = q + 1;
    }
    let mut h: usize = 0;
    while h < headers.len()
        decreases headers.len() - h,
    {
        parameters.push(code_parameter(headers[h].name.clone(), headers[h].location, headers[h].required, "code"));
        h = h + 1;
    }
    let parameters = sort_and_dedup_parameters(parameters);
    let mut feature_ids: Vec<String> = Vec::new();
    let mut f: usize = 0;
    assert(views(feature_ids@) =~= concerned_feature_ids(features@, node.id@, hid, 0));
    while f < features.len()
        invariant
            f <= features@.len(),
            views(feature_ids@) == concerned_feature_ids(features@, node.id@, hid, f as int),
            hid == match handler {
                Some(hn) => Some(hn.id@),
                None => None::<Seq<char>>,
            },
        decreases features.len() - f,
    {
        let ghost before = views(feature_ids@);
        if concerns(&features[f].node_ids, node, &handler) {
            feature_ids.push(features[f].id.clone());
            assert(views(feature_ids@) =~= before.push(features@[f as int].id@));
        }
        f = f + 1;
    }
    let mut security: Vec<String> = Vec::new();
    let mut quality: Vec<String> = Vec::new();
    let mut k: usize = 0;
    assert(views(security@) =~= concerned_finding_ids(findings@, node.id@, hid, 0, true));
    assert(views(quality@) =~= concerned_finding_ids(findings@, node.id@, hid, 0, false));
    while k < findings.len()
        invariant
            k <= findings@.len(),
            views(security@) == concerned_finding_ids(findings@, node.id@, hid, k as int, true),
            views(quality@) == concerned_finding_ids(findings@, node.id@, hid, k as int, false),
            hid == match handler {
                Some(hn) => Some(hn.id@),
                None => None::<Seq<char>>,
            },
        decreases findings.len() - k,
    {
        let ghost sb = views(security@);
        let ghost qb = views(quality@);
        if concerns(&findings[k].node_ids, node, &handler) {
            if findings[k].category == FindingCategory::Security {
                security.push(findings[k].id.clone());
                assert(views(security@) =~= sb.push(findings@[k as int].id@));
            } else {
                quality.push(findings[k].id.clone());
                assert(views(quality@) =~= qb.push(findings@[k as int].id@));
            }
        }
        k = k + 1;
    }
    let m = method.as_str();
    let request_schema = if str_equal(m, "POST") || str_equal(m, "PUT") || str_equal(m, "PATCH") {
        discover_request_schema(source.as_str())
    } else {
        None
    };
    let lower = chars_of(to_lowercase(source.as_str()).as_str());
    let transport = if node.kind == NodeKind::Route && contains(&lower, &chars_of("websocket")) {
        "websocket"
    } else if contains(&lower, &chars_of("text/event-stream")) {
        "sse"
    } else {
        "http"
    };
    let tag = path_tag(path.as_str());
    let framework = match &node.path {
        Some(p) => infer_framework(graph, Some(p.as_str()), source.as_str()),
        None => infer_framework(graph, None, source.as_str()),
    };
    let has_tests = match handler {
        Some(hn) => tested_handler(graph, hn),
        None => false,
    };
    let endpoint = ApiEndpoint {
        id: node.id.clone(),
        project_id: String::from_str(project_id),
        method,
        path,
        name: node.name.clone(),
        framework,
        transport: String::from_str(transport),
        handler_node_id: match handler {
            Some(hn) => Some(hn.id.clone()),
            None => None,
        },
        source_path: copy_opt_string(&node.path),
        source_start_line: node.start_line,
        source_end_line: node.end_line,
        auth_requirements: discover_auth(source.as_str()),
        parameters,
        request_content_types: discover_content_types(source.as_str()),
        request_schema,
        responses: discover_responses(source.as_str()),
        tags: vec![tag],
        feature_ids,
        source_scope: String::from_str(scope_name(node.source_scope)),
        provenance: String::from_str("code"),
        security_finding_ids: security,
        quality_finding_ids: quality,
        has_tests,
    };
    proof {
        reveal_strlit("code");
        assert(graph.nodes@[i as int].id == endpoint.id);
        assert(endpoint.tags@.map_values(|t: String| t@) =~= seq![spec_path_tag(endpoint.path@)]);
        reveal_strlit("POST");
        reveal_strlit("PUT");
        reveal_strlit("PATCH");
    }
    Some(endpoint)
}

/// A first-party route node whose name is a method and a path.
pub open spec fn declares_route(n: CodeNode) -> bool {
    (n.kind == NodeKind::ApiEndpoint || n.kind == NodeKind::Route) && n.source_scope.spec_library_eligible()
        && spec_route_parts(n.name@) is Some
}

/// The HTTP endpoints the project's first-party route nodes declare.
///
/// `sources` holds the text of the project files, by relative path; a file missing from it
/// reads as empty. The endpoints are sorted by path, then method, and each method and path
/// appears once (the first node declaring it wins).
pub fn discover_api_endpoints(
    project_id: &str,
    graph: &ProjectGraph,
    features: &Vec<Feature>,
    findings: &Vec<Finding>,
    sources: &Vec<SourceText>,
) -> (res: Vec<ApiEndpoint>)
    ensures
        endpoints_ordered(res@),
        forall|k: int| 0 <= k < res@.len() ==> endpoint_built(*graph, #[trigger] res@[k], project_id@, features@, findings@),
        forall|j: int| 0 <= j < graph.nodes@.len() && declares_route(#[trigger] graph.nodes@[j]) ==> {
            let parts = spec_route_parts(graph.nodes@[j].name@)->0;
            has_route(res@, parts.0, crate::api::spec_normalize_path(parts.1))
        },
{
    let mut out: Vec<ApiEndpoint> = Vec::new();
    let mut i: usize = 0;
    while i < graph.nodes.len()
        invariant
            i <= graph.nodes@.len(),
            endpoints_ordered(out@),
            forall|k: int| 0 <= k < out@.len() ==> endpoint_built(*graph, #[trigger] out@[k], project_id@, features@, findings@),
            forall|j: int| 0 <= j < i && declares_route(#[trigger] graph.nodes@[j]) ==> {
                let parts = spec_route_parts(graph.nodes@[j].name@)->0;
                has_route(out@, parts.0, crate::api::spec_normalize_path(parts.1))
            },
        decreases graph.nodes.len() - i,
    {
        let node = &graph.nodes[i];
        if (node.kind == NodeKind::ApiEndpoint || node.kind == NodeKind::Route) && node.source_scope.library_eligible() {
            match endpoint_for(project_id, graph, i, features, findings, sources) {
                Some(e) => {
                    assert(endpoint_from(*graph, i as int, e, project_id@, features@, findings@));
                    insert_endpoint(&mut out, e, Ghost(*graph), Ghost(project_id@), Ghost(features@), Ghost(findings@));
                },
                None => {},
            }
        }
        i = i + 1;
    }
    out
}

} // verus!
