//! OpenAPI documents: what an imported document adds to the endpoints found in code, and
//! the record of an executed request with its secrets masked.
use vstd::prelude::*;

use crate::api::{
    ApiEndpoint, ApiEnvironmentKind, ApiExecuteRequest, ApiParameter, ApiParameterLocation, ApiResponseMetadata,
    spec_secret_header,
};
use crate::json::{JsonDoc, doc_flag, doc_get, doc_items, doc_text, doc_of_value, get, get_text, items_of, text_of, value_of_doc};
use crate::text::{decimal, holds, spec_decimal, spec_to_lowercase, string_of, to_lowercase, views};

verus! {

// ---------------------------------------------------------------------------
// What an imported document says of an endpoint
// ---------------------------------------------------------------------------

/// A parameter as plain values: name, location, required, schema type, source.
pub type ParamView = (Seq<char>, ApiParameterLocation, bool, Seq<char>, Seq<char>);

/// A parameter as plain values.
pub open spec fn param_view(p: ApiParameter) -> ParamView {
    (p.name@, p.location, p.required, p.schema_type@, p.source@)
}

/// Parameters as plain values.
pub open spec fn param_views(ps: Seq<ApiParameter>) -> Seq<ParamView> {
    ps.map_values(|p: ApiParameter| param_view(p))
}

/// The operation a document gives for a path and a method (`paths`, then the path, then
/// the method in lower case), if any.
pub open spec fn operation_for(doc: JsonDoc, path: Seq<char>, method: Seq<char>) -> Option<JsonDoc> {
    match doc_get(doc, "paths"@) {
        Some(paths) => match doc_get(paths, path) {
            Some(p) => doc_get(p, spec_to_lowercase(method)),
            None => None,
        },
        None => None,
    }
}

/// The elements of the array member `key` of a value; none when it is missing or no array.
pub open spec fn array_member(d: JsonDoc, key: Seq<char>) -> Seq<JsonDoc> {
    match doc_get(d, key) {
        Some(v) => match doc_items(v) {
            Some(items) => items,
            None => Seq::empty(),
        },
        None => Seq::empty(),
    }
}

/// The string tags among `tags` that `existing` lacks, in order.
pub open spec fn new_tags(existing: Seq<Seq<char>>, tags: Seq<JsonDoc>) -> Seq<Seq<char>>
    decreases tags.len(),
{
    if tags.len() == 0 {
        Seq::empty()
    } else {
        let r = new_tags(existing, tags.drop_last());
        match doc_text(tags.last()) {
            Some(t) => if existing.contains(t) { r } else { r.push(t) },
            None => r,
        }
    }
}

/// Where a parameter described by a document travels: its `in`, the query by default.
pub open spec fn location_of(p: JsonDoc) -> ApiParameterLocation {
    match get_text(p, "in"@) {
        Some(s) => if s == "path"@ {
            ApiParameterLocation::Path
        } else if s == "header"@ {
            ApiParameterLocation::Header
        } else if s == "cookie"@ {
            ApiParameterLocation::Cookie
        } else {
            ApiParameterLocation::Query
        },
        None => ApiParameterLocation::Query,
    }
}

/// Whether a parameter described by a document is required: its boolean `required`, false
/// by default.
pub open spec fn required_of(p: JsonDoc) -> bool {
    match doc_get(p, "required"@) {
        Some(v) => match doc_flag(v) {
            Some(b) => b,
            None => false,
        },
        None => false,
    }
}

/// The schema type of a parameter described by a document: its `schema.type`, `unknown`
/// by default.
pub open spec fn schema_type_of(p: JsonDoc) -> Seq<char> {
    match doc_get(p, "schema"@) {
        Some(s) => match get_text(s, "type"@) {
            Some(t) => t,
            None => "unknown"@,
        },
        None => "unknown"@,
    }
}

/// Some parameter of `ps` has the name.
pub open spec fn named_in(ps: Seq<ParamView>, name: Seq<char>) -> bool {
    exists|i: int| 0 <= i < ps.len() && ps[i].0 == name
}

/// The parameters after the document's: each named one whose name is not taken yet is
/// added, marked as learnt from OpenAPI.
pub open spec fn params_after(cur: Seq<ParamView>, items: Seq<JsonDoc>) -> Seq<ParamView>
    decreases items.len(),
{
    if items.len() == 0 {
        cur
    } else {
        let r = params_after(cur, items.drop_last());
        let p = items.last();
        match get_text(p, "name"@) {
            Some(n) => if named_in(r, n) {
                r
            } else {
                r.push((n, location_of(p), required_of(p), schema_type_of(p), "openapi"@))
            },
            None => r,
        }
    }
}

/// The JSON request schema of an operation: `requestBody.content["application/json"].schema`.
pub open spec fn request_schema_doc(op: JsonDoc) -> Option<JsonDoc> {
    match doc_get(op, "requestBody"@) {
        Some(b) => match doc_get(b, "content"@) {
            Some(c) => match doc_get(c, "application/json"@) {
                Some(j) => doc_get(j, "schema"@),
                None => None,
            },
            None => None,
        },
        None => None,
    }
}

/// `new` is `old` merged with the operation `op`: marked as known from both code and
/// document, with the document's new tags and parameters appended and its JSON request
/// schema when it gives one; nothing else changes.
pub open spec fn merged_endpoint(old: ApiEndpoint, op: JsonDoc, new: ApiEndpoint) -> bool {
    &&& new.provenance@ == "both"@
    &&& views(new.tags@) == views(old.tags@) + new_tags(views(old.tags@), array_member(op, "tags"@))
    &&& param_views(new.parameters@) == params_after(param_views(old.parameters@), array_member(op, "parameters"@))
    &&& (request_schema_doc(op) is Some ==> new.request_schema is Some)
    &&& (request_schema_doc(op) is None ==> new.request_schema == old.request_schema)
    &&& new == (ApiEndpoint {
        provenance: new.provenance,
        tags: new.tags,
        parameters: new.parameters,
        request_schema: new.request_schema,
        ..old
    })
}

/// The number of endpoints the document gives an operation for.
pub open spec fn count_operations(doc: JsonDoc, es: Seq<ApiEndpoint>) -> int
    decreases es.len(),
{
    if es.len() == 0 {
        0
    } else {
        count_operations(doc, es.drop_last()) + if operation_for(doc, es.last().path@, es.last().method@) is Some {
            1int
        } else {
            0int
        }
    }
}

// ---------------------------------------------------------------------------
// Executable parts
// ---------------------------------------------------------------------------

fn member_items<'a>(d: &'a JsonDoc, key: &str) -> (res: Option<&'a Vec<JsonDoc>>)
    ensures
        match res {
            Some(v) => array_member(*d, key@) == v@,
            None => array_member(*d, key@) == Seq::<JsonDoc>::empty(),
        },
{
    match get(d, key) {
        Some(v) => items_of(v),
        None => None,
    }
}

fn find_operation<'a>(doc: &'a JsonDoc, path: &str, method: &str) -> (res: Option<&'a JsonDoc>)
    ensures
        match res {
            Some(op) => operation_for(*doc, path@, method@) == Some(*op),
            None => operation_for(*doc, path@, method@) is None,
        },
{
    let paths = match get(doc, "paths") {
        Some(p) => p,
        None => return None,
    };
    let entry = match get(paths, path) {
        Some(e) => e,
        None => return None,
    };
    let lower = to_lowercase(method);
    get(entry, lower.as_str())
}

fn request_schema_of(op: &JsonDoc) -> (res: Option<&JsonDoc>)
    ensures
        match res {
            Some(s) => request_schema_doc(*op) == Some(*s),
            None => request_schema_doc(*op) is None,
        },
{
    let body = match get(op, "requestBody") {
        Some(b) => b,
        None => return None,
    };
    let content = match get(body, "content") {
        Some(c) => c,
        None => return None,
    };
    let json = match get(content, "application/json") {
        Some(j) => j,
        None => return None,
    };
    get(json, "schema")
}

fn location_from(p: &JsonDoc) -> (res: ApiParameterLocation)
    ensures
        res == location_of(*p),
{
    let text = match get(p, "in") {
        Some(v) => text_of(v),
        None => None,
    };
    match text {
        Some(s) => {
            if crate::model::str_equal(s.as_str(), "path") {
                ApiParameterLocation::Path
            } else if crate::model::str_equal(s.as_str(), "header") {
                ApiParameterLocation::Header
            } else if crate::model::str_equal(s.as_str(), "cookie") {
                ApiParameterLocation::Cookie
            } else {
                ApiParameterLocation::Query
            }
        },
        None => ApiParameterLocation::Query,
    }
}

fn required_from(p: &JsonDoc) -> (res: bool)
    ensures
        res == required_of(*p),
{
    match get(p, "required") {
        Some(JsonDoc::Bool(b)) => *b,
        _ => false,
    }
}

fn schema_type_from(p: &JsonDoc) -> (res: String)
    ensures
        res@ == schema_type_of(*p),
{
    let schema = match get(p, "schema") {
        Some(s) => s,
        None => return String::from_str("unknown"),
    };
    match get(schema, "type") {
        Some(t) => match text_of(t) {
            Some(s) => s.clone(),
            None => String::from_str("unknown"),
        },
        None => String::from_str("unknown"),
    }
}

fn has_parameter(ps: &Vec<ApiParameter>, name: &str) -> (res: bool)
    ensures
        res == named_in(param_views(ps@), name@),
{
    let mut i: usize = 0;
    while i < ps.len()
        invariant
            i <= ps@.len(),
            forall|j: int| 0 <= j < i ==> ps@[j].name@ != name@,
        decreases ps.len() - i,
    {
        if crate::model::str_equal(ps[i].name.as_str(), name) {
            assert(param_views(ps@)[i as int].0 == name@);
            return true;
        }
        i = i + 1;
    }
    false
}

fn merge_tags(tags: &mut Vec<String>, items: &Vec<JsonDoc>)
    ensures
        views(final(tags)@) == views(old(tags)@) + new_tags(views(old(tags)@), items@),
{
    let existing = crate::text::copy_strings(tags);
    let ghost base = views(old(tags)@);
    let mut k: usize = 0;
    assert(views(tags@) =~= base + new_tags(base, items@.subrange(0, 0)));
    while k < items.len()
        invariant
            k <= items@.len(),
            views(existing@) == base,
            views(tags@) == base + new_tags(base, items@.subrange(0, k as int)),
        decreases items.len() - k,
    {
        assert(items@.subrange(0, k + 1).drop_last() =~= items@.subrange(0, k as int));
        assert(items@.subrange(0, k + 1).last() == items@[k as int]);
        match text_of(&items[k]) {
            Some(s) => {
                if !holds(&existing, s.as_str()) {
                    let ghost before = views(tags@);
                    tags.push(s.clone());
                    assert(views(tags@) =~= before.push(s@));
                    assert(views(tags@) =~= base + new_tags(base, items@.subrange(0, k as int)).push(s@));
                }
            },
            None => {},
        }
        k = k + 1;
    }
    assert(items@.subrange(0, items@.len() as int) =~= items@);
}

fn merge_parameters(ps: &mut Vec<ApiParameter>, items: &Vec<JsonDoc>)
    ensures
        param_views(final(ps)@) == params_after(param_views(old(ps)@), items@),
{
    let ghost base = param_views(old(ps)@);
    let mut k: usize = 0;
    assert(items@.subrange(0, 0) =~= Seq::<JsonDoc>::empty());
    while k < items.len()
        invariant
            k <= items@.len(),
            param_views(ps@) == params_after(base, items@.subrange(0, k as int)),
        decreases items.len() - k,
    {
        assert(items@.subrange(0, k + 1).drop_last() =~= items@.subrange(0, k as int));
        assert(items@.subrange(0, k + 1).last() == items@[k as int]);
        let p = &items[k];
        let name = match get(p, "name") {
            Some(v) => text_of(v),
            None => None,
        };
        match name {
            Some(n) => {
                if !has_parameter(ps, n.as_str()) {
                    let parameter = ApiParameter {
                        name: n.clone(),
                        location: location_from(p),
                        required: required_from(p),
                        schema_type: schema_type_from(p),
                        source: String::from_str("openapi"),
                    };
                    ps.push(parameter);
                    assert(param_views(ps@) =~= params_after(base, items@.subrange(0, k as int)).push(
                        (n@, location_of(*p), required_of(*p), schema_type_of(*p), "openapi"@),
                    ));
                }
            },
            None => {},
        }
        k = k + 1;
    }
    assert(items@.subrange(0, items@.len() as int) =~= items@);
}

fn merge_into(e: &mut ApiEndpoint, op: &JsonDoc)
    ensures
        merged_endpoint(*old(e), *op, *final(e)),
{
    e.provenance = String::from_str("both");
    match member_items(op, "tags") {
        Some(items) => merge_tags(&mut e.tags, items),
        None => {
            assert(new_tags(views(e.tags@), Seq::<JsonDoc>::empty()) =~= Seq::<Seq<char>>::empty());
            assert(views(e.tags@) =~= views(e.tags@) + Seq::<Seq<char>>::empty());
        },
    }
    match member_items(op, "parameters") {
        Some(items) => merge_parameters(&mut e.parameters, items),
        None => {},
    }
    match request_schema_of(op) {
        Some(schema) => {
            e.request_schema = Some(value_of_doc(schema));
        },
        None => {},
    }
}

/// Merges an imported OpenAPI document into the endpoints found in code. Each endpoint the
/// document gives an operation for (under its path and its method in lower case) is marked
/// as known from both, gains the document's tags and parameters it lacks and the
/// document's JSON request schema when there is one; the others are left as they are.
/// Returns how many endpoints were merged.
pub fn merge_openapi(endpoints: &mut Vec<ApiEndpoint>, document: &JsonDoc) -> (res: usize)
    ensures
        res == count_operations(*document, old(endpoints)@),
        final(endpoints)@.len() == old(endpoints)@.len(),
        forall|i: int| 0 <= i < old(endpoints)@.len() ==> match operation_for(*document, old(endpoints)@[i].path@, old(endpoints)@[i].method@) {
            Some(op) => merged_endpoint(old(endpoints)@[i], op, #[trigger] final(endpoints)@[i]),
            None => final(endpoints)@[i] == old(endpoints)@[i],
        },
{
    let ghost start = endpoints@;
    let mut merged: usize = 0;
    let mut i: usize = 0;
    while i < endpoints.len()
        invariant
            i <= endpoints@.len(),
            endpoints@.len() == start.len(),
            start == old(endpoints)@,
            merged == count_operations(*document, start.subrange(0, i as int)),
            merged <= i,
            forall|j: int| i <= j < start.len() ==> endpoints@[j] == start[j],
            forall|j: int| 0 <= j < i ==> match operation_for(*document, start[j].path@, start[j].method@) {
                Some(op) => merged_endpoint(start[j], op, #[trigger] endpoints@[j]),
                None => endpoints@[j] == start[j],
            },
        decreases endpoints.len() - i,
    {
        assert(start.subrange(0, i + 1).drop_last() =~= start.subrange(0, i as int));
        assert(start.subrange(0, i + 1).last() == start[i as int]);
        let op = find_operation(document, endpoints[i].path.as_str(), endpoints[i].method.as_str());
        match op {
            Some(op) => {
                merge_into(&mut endpoints[i], op);
                merged = merged + 1;
            },
            None => {},
        }
        i = i + 1;
    }
    assert(start.subrange(0, start.len() as int) =~= start);
    merged
}


// ---------------------------------------------------------------------------
// The record of an executed request
// ---------------------------------------------------------------------------

/// The name an environment kind is recorded under.
pub open spec fn environment_name(e: ApiEnvironmentKind) -> Seq<char> {
    match e {
        ApiEnvironmentKind::Local => "local"@,
        ApiEnvironmentKind::Development => "development"@,
        ApiEnvironmentKind::Staging => "staging"@,
        ApiEnvironmentKind::Production => "production"@,
        ApiEnvironmentKind::Custom => "custom"@,
    }
}

/// A header value as recorded: masked for a credential header.
pub open spec fn masked_value(name: Seq<char>, value: Seq<char>) -> Seq<char> {
    if spec_secret_header(name) { "\u{2022}\u{2022}\u{2022}\u{2022}"@ } else { value }
}

/// `d` is the object of the headers `h`, in order, credential values masked.
pub open spec fn masked_headers(h: Seq<(String, String)>, d: JsonDoc) -> bool {
    match d {
        JsonDoc::Object(ms) => ms@.len() == h.len() && forall|k: int| 0 <= k < h.len()
            ==> (#[trigger] ms@[k]).0@ == h[k].0@ && doc_text(ms@[k].1) == Some(masked_value(h[k].0@, h[k].1@)),
        _ => false,
    }
}

/// `d` records the request `r`: its endpoint (or null), method, URL, headers with their
/// credentials masked, and environment, in that order.
pub open spec fn masked_record(r: ApiExecuteRequest, d: JsonDoc) -> bool {
    match d {
        JsonDoc::Object(ms) => {
            &&& ms@.len() == 5
            &&& ms@[0].0@ == "endpoint_id"@
            &&& match r.endpoint_id {
                Some(id) => doc_text(ms@[0].1) == Some(id@),
                None => ms@[0].1 is Null,
            }
            &&& ms@[1].0@ == "method"@ && doc_text(ms@[1].1) == Some(r.method@)
            &&& ms@[2].0@ == "url"@ && doc_text(ms@[2].1) == Some(r.url@)
            &&& ms@[3].0@ == "headers"@ && masked_headers(r.headers@, ms@[3].1)
            &&& ms@[4].0@ == "environment"@ && doc_text(ms@[4].1) == Some(environment_name(r.environment))
        },
        _ => false,
    }
}

fn environment_text(e: ApiEnvironmentKind) -> (res: String)
    ensures
        res@ == environment_name(e),
{
    match e {
        ApiEnvironmentKind::Local => String::from_str("local"),
        ApiEnvironmentKind::Development => String::from_str("development"),
        ApiEnvironmentKind::Staging => String::from_str("staging"),
        ApiEnvironmentKind::Production => String::from_str("production"),
        ApiEnvironmentKind::Custom => String::from_str("custom"),
    }
}

/// The record of an executed request, its credential headers (`Authorization`,
/// `X-Api-Key`, `Proxy-Authorization`, `Cookie`, `Set-Cookie`, in any case) masked; the
/// headers keep their order.
pub fn masked_request(request: &ApiExecuteRequest) -> (res: JsonDoc)
    ensures
        masked_record(*request, res),
{
    let mut headers: Vec<(String, JsonDoc)> = Vec::new();
    let mut k: usize = 0;
    while k < request.headers.len()
        invariant
            k <= request.headers@.len(),
            headers@.len() == k,
            forall|j: int| 0 <= j < k ==> (#[trigger] headers@[j]).0@ == request.headers@[j].0@
                && doc_text(headers@[j].1) == Some(masked_value(request.headers@[j].0@, request.headers@[j].1@)),
        decreases request.headers.len() - k,
    {
        let (name, value) = (&request.headers[k].0, &request.headers[k].1);
        let shown = if crate::api::is_secret_header(name.as_str()) {
            String::from_str("\u{2022}\u{2022}\u{2022}\u{2022}")
        } else {
            value.clone()
        };
        headers.push((name.clone(), JsonDoc::Text(shown)));
        k = k + 1;
    }
    let endpoint = match &request.endpoint_id {
        Some(id) => JsonDoc::Text(id.clone()),
        None => JsonDoc::Null,
    };
    let members: Vec<(String, JsonDoc)> = vec![
        (String::from_str("endpoint_id"), endpoint),
        (String::from_str("method"), JsonDoc::Text(request.method.clone())),
        (String::from_str("url"), JsonDoc::Text(request.url.clone())),
        (String::from_str("headers"), JsonDoc::Object(headers)),
        (String::from_str("environment"), JsonDoc::Text(environment_text(request.environment))),
    ];
    JsonDoc::Object(members)
}


// ---------------------------------------------------------------------------
// The document the endpoints describe
// ---------------------------------------------------------------------------

/// Where a parameter travels, as OpenAPI names it.
pub open spec fn location_name(l: ApiParameterLocation) -> Seq<char> {
    match l {
        ApiParameterLocation::Path => "path"@,
        ApiParameterLocation::Query => "query"@,
        ApiParameterLocation::Header => "header"@,
        ApiParameterLocation::Cookie => "cookie"@,
    }
}

/// `d` is the object whose members are the keys `keys` with the texts `texts`, in order.
pub open spec fn texts_object(d: JsonDoc, keys: Seq<Seq<char>>, texts: Seq<Seq<char>>) -> bool {
    match d {
        JsonDoc::Object(ms) => ms@.len() == keys.len() && keys.len() == texts.len()
            && forall|k: int| 0 <= k < keys.len() ==> (#[trigger] ms@[k]).0@ == keys[k] && doc_text(ms@[k].1) == Some(texts[k]),
        _ => false,
    }
}

/// `d` is an array of the texts `texts`.
pub open spec fn texts_array(d: JsonDoc, texts: Seq<Seq<char>>) -> bool {
    match d {
        JsonDoc::Array(v) => v@.len() == texts.len() && forall|k: int| 0 <= k < texts.len() ==> doc_text(#[trigger] v@[k]) == Some(texts[k]),
        _ => false,
    }
}

/// `d` describes the parameter `p`: its name, location, whether it is required, its schema
/// type and where it was learnt.
pub open spec fn parameter_describes(d: JsonDoc, p: ApiParameter) -> bool {
    match d {
        JsonDoc::Object(ms) => {
            &&& ms@.len() == 5
            &&& ms@[0].0@ == "name"@ && doc_text(ms@[0].1) == Some(p.name@)
            &&& ms@[1].0@ == "in"@ && doc_text(ms@[1].1) == Some(location_name(p.location))
            &&& ms@[2].0@ == "required"@ && doc_flag(ms@[2].1) == Some(p.required)
            &&& ms@[3].0@ == "schema"@ && texts_object(ms@[3].1, seq!["type"@], seq![p.schema_type@])
            &&& ms@[4].0@ == "x-code-atlas-source"@ && doc_text(ms@[4].1) == Some(p.source@)
        },
        _ => false,
    }
}

/// The description of a response found in code.
pub open spec fn detected_response() -> Seq<char> {
    "R\u{e9}ponse d\u{e9}tect\u{e9}e"@
}

/// The description of the responses of an endpoint none was found for.
pub open spec fn undetermined_response() -> Seq<char> {
    "R\u{e9}ponse non d\u{e9}termin\u{e9}e depuis le code"@
}

/// `d` describes the response `r`: detected, with its content type holding its schema (null
/// when unknown), or null content without a content type.
pub open spec fn response_describes(d: JsonDoc, r: ApiResponseMetadata) -> bool {
    match d {
        JsonDoc::Object(ms) => {
            &&& ms@.len() == 2
            &&& ms@[0].0@ == "description"@ && doc_text(ms@[0].1) == Some(detected_response())
            &&& ms@[1].0@ == "content"@
            &&& match r.content_type {
                None => ms@[1].1 is Null,
                Some(ct) => match ms@[1].1 {
                    JsonDoc::Object(cs) => cs@.len() == 1 && cs@[0].0@ == ct@ && match cs@[0].1 {
                        JsonDoc::Object(ss) => ss@.len() == 1 && ss@[0].0@ == "schema"@ && (r.schema is None ==> ss@[0].1 is Null),
                        _ => false,
                    },
                    _ => false,
                },
            }
        },
        _ => false,
    }
}

/// The key of a response: its status in decimal.
pub open spec fn status_key(r: ApiResponseMetadata) -> Seq<char> {
    spec_decimal(r.status as nat)
}

/// `j` is the last response with the key `key`.
pub open spec fn last_response_at(rs: Seq<ApiResponseMetadata>, key: Seq<char>, j: int) -> bool {
    &&& 0 <= j < rs.len()
    &&& status_key(rs[j]) == key
    &&& forall|i: int| j < i < rs.len() ==> status_key(rs[i]) != key
}

/// The members of `ms` have distinct keys.
pub open spec fn distinct_keys(ms: Seq<(String, JsonDoc)>) -> bool {
    forall|a: int, b: int| 0 <= a < b < ms.len() ==> (#[trigger] ms[a]).0@ != (#[trigger] ms[b]).0@
}

/// The member describes the last response with its key.
pub open spec fn describes_last(rs: Seq<ApiResponseMetadata>, m: (String, JsonDoc)) -> bool {
    exists|i: int| last_response_at(rs, m.0@, i) && response_describes(m.1, rs[i])
}

/// Some member of `ms` has the key.
pub open spec fn key_listed(ms: Seq<(String, JsonDoc)>, key: Seq<char>) -> bool {
    exists|k: int| 0 <= k < ms.len() && ms[k].0@ == key
}

/// `d` describes the responses `rs`: a default one when there is none, otherwise one member
/// per status, describing the last response with that status.
pub open spec fn responses_describe(d: JsonDoc, rs: Seq<ApiResponseMetadata>) -> bool {
    match d {
        JsonDoc::Object(ms) => if rs.len() == 0 {
            &&& ms@.len() == 1
            &&& ms@[0].0@ == "default"@
            &&& texts_object(ms@[0].1, seq!["description"@], seq![undetermined_response()])
        } else {
            &&& distinct_keys(ms@)
            &&& forall|j: int| 0 <= j < rs.len() ==> key_listed(ms@, status_key(#[trigger] rs[j]))
            &&& forall|k: int| 0 <= k < ms@.len() ==> describes_last(rs, #[trigger] ms@[k])
        },
        _ => false,
    }
}

/// `d` describes the operation of the endpoint `e`: its id, tags, parameters, responses,
/// provenance and handler (null when unknown), in that order.
pub open spec fn operation_describes(d: JsonDoc, e: ApiEndpoint) -> bool {
    match d {
        JsonDoc::Object(ms) => {
            &&& ms@.len() == 6
            &&& ms@[0].0@ == "operationId"@ && doc_text(ms@[0].1) == Some(e.id@)
            &&& ms@[1].0@ == "tags"@ && texts_array(ms@[1].1, views(e.tags@))
            &&& ms@[2].0@ == "parameters"@ && match ms@[2].1 {
                JsonDoc::Array(ps) => ps@.len() == e.parameters@.len()
                    && forall|k: int| 0 <= k < ps@.len() ==> parameter_describes(#[trigger] ps@[k], e.parameters@[k]),
                _ => false,
            }
            &&& ms@[3].0@ == "responses"@ && responses_describe(ms@[3].1, e.responses@)
            &&& ms@[4].0@ == "x-code-atlas-provenance"@ && doc_text(ms@[4].1) == Some(e.provenance@)
            &&& ms@[5].0@ == "x-code-atlas-handler"@ && match e.handler_node_id {
                Some(h) => doc_text(ms@[5].1) == Some(h@),
                None => ms@[5].1 is Null,
            }
        },
        _ => false,
    }
}

fn text_array(v: &Vec<String>) -> (res: JsonDoc)
    ensures
        texts_array(res, views(v@)),
{
    let mut out: Vec<JsonDoc> = Vec::new();
    let mut k: usize = 0;
    while k < v.len()
        invariant
            k <= v@.len(),
            out@.len() == k,
            forall|j: int| 0 <= j < k ==> doc_text(#[trigger] out@[j]) == Some(v@[j]@),
        decreases v.len() - k,
    {
        out.push(JsonDoc::Text(v[k].clone()));
        k = k + 1;
    }
    JsonDoc::Array(out)
}

fn location_text(l: ApiParameterLocation) -> (res: String)
    ensures
        res@ == location_name(l),
{
    match l {
        ApiParameterLocation::Path => String::from_str("path"),
        ApiParameterLocation::Query => String::from_str("query"),
        ApiParameterLocation::Header => String::from_str("header"),
        ApiParameterLocation::Cookie => String::from_str("cookie"),
    }
}

fn parameter_doc(p: &ApiParameter) -> (res: JsonDoc)
    ensures
        parameter_describes(res, *p),
{
    let schema = JsonDoc::Object(vec![(String::from_str("type"), JsonDoc::Text(p.schema_type.clone()))]);
    let members: Vec<(String, JsonDoc)> = vec![
        (String::from_str("name"), JsonDoc::Text(p.name.clone())),
        (String::from_str("in"), JsonDoc::Text(location_text(p.location))),
        (String::from_str("required"), JsonDoc::Bool(p.required)),
        (String::from_str("schema"), schema),
        (String::from_str("x-code-atlas-source"), JsonDoc::Text(p.source.clone())),
    ];
    JsonDoc::Object(members)
}

fn response_doc(r: &ApiResponseMetadata) -> (res: JsonDoc)
    ensures
        response_describes(res, *r),
{
    let content = match &r.content_type {
        None => JsonDoc::Null,
        Some(ct) => {
            let schema = match &r.schema {
                Some(v) => doc_of_value(v),
                None => JsonDoc::Null,
            };
            JsonDoc::Object(vec![(ct.clone(), JsonDoc::Object(vec![(String::from_str("schema"), schema)]))])
        },
    };
    JsonDoc::Object(vec![
        (String::from_str("description"), JsonDoc::Text(String::from_str("R\u{e9}ponse d\u{e9}tect\u{e9}e"))),
        (String::from_str("content"), content),
    ])
}

/// Some response has the key.
pub open spec fn key_of_some(rs: Seq<ApiResponseMetadata>, key: Seq<char>) -> bool {
    exists|i: int| 0 <= i < rs.len() && status_key(rs[i]) == key
}

/// The distinct keys of the responses, in order of first appearance.
fn response_keys(rs: &Vec<ApiResponseMetadata>) -> (keys: Vec<String>)
    ensures
        forall|a: int, b: int| 0 <= a < b < keys@.len() ==> (#[trigger] keys@[a])@ != (#[trigger] keys@[b])@,
        forall|i: int| 0 <= i < rs@.len() ==> views(keys@).contains(status_key(#[trigger] rs@[i])),
        forall|q: int| 0 <= q < keys@.len() ==> key_of_some(rs@, (#[trigger] keys@[q])@),
{
    let mut keys: Vec<String> = Vec::new();
    let mut j: usize = 0;
    while j < rs.len()
        invariant
            j <= rs@.len(),
            forall|a: int, b: int| 0 <= a < b < keys@.len() ==> (#[trigger] keys@[a])@ != (#[trigger] keys@[b])@,
            forall|i: int| 0 <= i < j ==> views(keys@).contains(status_key(#[trigger] rs@[i])),
            forall|q: int| 0 <= q < keys@.len() ==> key_of_some(rs@, (#[trigger] keys@[q])@),
        decreases rs.len() - j,
    {
        let key = string_of(&decimal(rs[j].status as usize));
        let ghost before = keys@;
        if !holds(&keys, key.as_str()) {
            keys.push(key);
            proof {
                assert(views(keys@) =~= views(before).push(status_key(rs@[j as int])));
                assert forall|a: int, b: int| 0 <= a < b < keys@.len() implies (#[trigger] keys@[a])@ != (#[trigger] keys@[b])@ by {
                    if b == before.len() {
                        assert(views(before)[a] == keys@[a]@);
                    } else {
                        assert(keys@[a] == before[a] && keys@[b] == before[b]);
                    }
                }
                assert forall|i: int| 0 <= i <= j implies views(keys@).contains(status_key(#[trigger] rs@[i])) by {
                    if i < j {
                        let w = choose|w: int| 0 <= w < views(before).len() && views(before)[w] == status_key(rs@[i]);
                        assert(views(keys@)[w] == status_key(rs@[i]));
                    } else {
                        assert(views(keys@)[before.len() as int] == status_key(rs@[i]));
                    }
                }
                assert forall|q: int| 0 <= q < keys@.len() implies key_of_some(rs@, (#[trigger] keys@[q])@) by {
                    if q < before.len() {
                        assert(keys@[q] == before[q]);
                    } else {
                        assert(status_key(rs@[j as int]) == keys@[q]@);
                    }
                }
            }
        }
        j = j + 1;
    }
    keys
}

/// The last response whose key is `key`; `key` is that of some response.
fn last_response(rs: &Vec<ApiResponseMetadata>, key: &String) -> (res: usize)
    requires
        key_of_some(rs@, key@),
    ensures
        last_response_at(rs@, key@, res as int),
{
    let mut last: usize = 0;
    let mut found = false;
    let mut i: usize = 0;
    while i < rs.len()
        invariant
            i <= rs@.len(),
            found ==> last < i && status_key(rs@[last as int]) == key@ && forall|t: int| last < t < i ==> status_key(rs@[t]) != key@,
            !found ==> forall|t: int| 0 <= t < i ==> status_key(rs@[t]) != key@,
        decreases rs.len() - i,
    {
        let k = string_of(&decimal(rs[i].status as usize));
        if crate::model::str_equal(k.as_str(), key.as_str()) {
            last = i;
            found = true;
        }
        i = i + 1;
    }
    proof {
        if !found {
            let w = choose|w: int| 0 <= w < rs@.len() && status_key(rs@[w]) == key@;
            assert(status_key(rs@[w]) != key@);
        }
    }
    last
}

fn responses_doc(rs: &Vec<ApiResponseMetadata>) -> (res: JsonDoc)
    ensures
        responses_describe(res, rs@),
{
    if rs.len() == 0 {
        let inner = JsonDoc::Object(vec![(
            String::from_str("description"),
            JsonDoc::Text(String::from_str("R\u{e9}ponse non d\u{e9}termin\u{e9}e depuis le code")),
        )]);
        return JsonDoc::Object(vec![(String::from_str("default"), inner)]);
    }
    let keys = response_keys(rs);
    let mut members: Vec<(String, JsonDoc)> = Vec::new();
    let mut k: usize = 0;
    while k < keys.len()
        invariant
            k <= keys@.len(),
            forall|q: int| 0 <= q < keys@.len() ==> key_of_some(rs@, (#[trigger] keys@[q])@),
            members@.len() == k,
            forall|q: int| 0 <= q < k ==> (#[trigger] members@[q]).0@ == keys@[q]@,
            forall|q: int| 0 <= q < k ==> describes_last(rs@, #[trigger] members@[q]),
        decreases keys.len() - k,
    {
        assert(key_of_some(rs@, keys@[k as int]@));
        let last = last_response(rs, &keys[k]);
        let ghost before = members@;
        members.push((keys[k].clone(), response_doc(&rs[last])));
        proof {
            assert forall|q: int| 0 <= q <= k implies describes_last(rs@, #[trigger] members@[q]) by {
                if q < k {
                    assert(members@[q] == before[q]);
                } else {
                    assert(last_response_at(rs@, members@[q].0@, last as int));
                }
            }
        }
        k = k + 1;
    }
    proof {
        assert forall|a: int, b: int| 0 <= a < b < members@.len() implies (#[trigger] members@[a]).0@ != (#[trigger] members@[b]).0@ by {
            assert(keys@[a]@ != keys@[b]@);
        }
        assert forall|j: int| 0 <= j < rs@.len() implies key_listed(members@, status_key(#[trigger] rs@[j])) by {
            assert(views(keys@).contains(status_key(rs@[j])));
            let w = choose|w: int| 0 <= w < views(keys@).len() && views(keys@)[w] == status_key(rs@[j]);
            assert(members@[w].0@ == keys@[w]@);
        }
    }
    JsonDoc::Object(members)
}

fn operation_doc(e: &ApiEndpoint) -> (res: JsonDoc)
    ensures
        operation_describes(res, *e),
{
    let mut parameters: Vec<JsonDoc> = Vec::new();
    let mut k: usize = 0;
    while k < e.parameters.len()
        invariant
            k <= e.parameters@.len(),
            parameters@.len() == k,
            forall|j: int| 0 <= j < k ==> parameter_describes(#[trigger] parameters@[j], e.parameters@[j]),
        decreases e.parameters.len() - k,
    {
        parameters.push(parameter_doc(&e.parameters[k]));
        k = k + 1;
    }
    let handler = match &e.handler_node_id {
        Some(h) => JsonDoc::Text(h.clone()),
        None => JsonDoc::Null,
    };
    JsonDoc::Object(vec![
        (String::from_str("operationId"), JsonDoc::Text(e.id.clone())),
        (String::from_str("tags"), text_array(&e.tags)),
        (String::from_str("parameters"), JsonDoc::Array(parameters)),
        (String::from_str("responses"), responses_doc(&e.responses)),
        (String::from_str("x-code-atlas-provenance"), JsonDoc::Text(e.provenance.clone())),
        (String::from_str("x-code-atlas-handler"), handler),
    ])
}


/// An endpoint served over HTTP.
pub open spec fn is_http(e: ApiEndpoint) -> bool {
    e.transport@ == "http"@
}

/// The endpoint is served over HTTP at `path` with `method` (in lower case).
pub open spec fn serves(e: ApiEndpoint, path: Seq<char>, method: Seq<char>) -> bool {
    is_http(e) && e.path@ == path && spec_to_lowercase(e.method@) == method
}

/// `i` is the last endpoint served at `path` with `method`.
pub open spec fn last_serving_at(es: Seq<ApiEndpoint>, path: Seq<char>, method: Seq<char>, i: int) -> bool {
    &&& 0 <= i < es.len()
    &&& serves(es[i], path, method)
    &&& forall|j: int| i < j < es.len() ==> !serves(es[j], path, method)
}

/// Some HTTP endpoint has the path.
pub open spec fn some_http_path(es: Seq<ApiEndpoint>, path: Seq<char>) -> bool {
    exists|i: int| 0 <= i < es.len() && is_http(es[i]) && es[i].path@ == path
}

/// Some endpoint is served at `path` with `method`.
pub open spec fn some_serving(es: Seq<ApiEndpoint>, path: Seq<char>, method: Seq<char>) -> bool {
    exists|i: int| 0 <= i < es.len() && serves(es[i], path, method)
}

/// The member describes the operation of the last endpoint served at `path` with its key
/// as method.
pub open spec fn describes_last_operation(es: Seq<ApiEndpoint>, path: Seq<char>, m: (String, JsonDoc)) -> bool {
    exists|i: int| last_serving_at(es, path, m.0@, i) && operation_describes(m.1, es[i])
}

/// `d` describes the operations at `path`: one member per method, describing the last
/// endpoint served there with it.
pub open spec fn methods_describe(d: JsonDoc, es: Seq<ApiEndpoint>, path: Seq<char>) -> bool {
    match d {
        JsonDoc::Object(ms) => {
            &&& distinct_keys(ms@)
            &&& forall|k: int| 0 <= k < ms@.len() ==> describes_last_operation(es, path, #[trigger] ms@[k])
            &&& forall|i: int| 0 <= i < es.len() && is_http(#[trigger] es[i]) && es[i].path@ == path
                ==> key_listed(ms@, spec_to_lowercase(es[i].method@))
        },
        _ => false,
    }
}

/// The member describes the operations at its key, a path of an HTTP endpoint.
pub open spec fn path_described(es: Seq<ApiEndpoint>, m: (String, JsonDoc)) -> bool {
    some_http_path(es, m.0@) && methods_describe(m.1, es, m.0@)
}

/// `d` describes the paths of the HTTP endpoints: one member per path.
pub open spec fn paths_describe(d: JsonDoc, es: Seq<ApiEndpoint>) -> bool {
    match d {
        JsonDoc::Object(ms) => {
            &&& distinct_keys(ms@)
            &&& forall|k: int| 0 <= k < ms@.len() ==> path_described(es, #[trigger] ms@[k])
            &&& forall|i: int| 0 <= i < es.len() && is_http(#[trigger] es[i]) ==> key_listed(ms@, es[i].path@)
        },
        _ => false,
    }
}

/// The description of a document built from code.
pub open spec fn discovered_contract() -> Seq<char> {
    "Contrat d\u{e9}couvert par Code Atlas ; les sch\u{e9}mas inconnus ne sont pas invent\u{e9}s."@
}

/// `d` is the OpenAPI 3.1.0 document of the project's HTTP endpoints.
pub open spec fn document_describes(d: JsonDoc, project_name: Seq<char>, es: Seq<ApiEndpoint>) -> bool {
    match d {
        JsonDoc::Object(ms) => {
            &&& ms@.len() == 3
            &&& ms@[0].0@ == "openapi"@ && doc_text(ms@[0].1) == Some("3.1.0"@)
            &&& ms@[1].0@ == "info"@ && texts_object(ms@[1].1, seq!["title"@, "version"@, "description"@],
                seq![project_name, "1.0.0"@, discovered_contract()])
            &&& ms@[2].0@ == "paths"@ && paths_describe(ms@[2].1, es)
        },
        _ => false,
    }
}

fn http(e: &ApiEndpoint) -> (res: bool)
    ensures
        res == is_http(*e),
{
    crate::model::str_equal(e.transport.as_str(), "http")
}

fn http_paths(es: &Vec<ApiEndpoint>) -> (keys: Vec<String>)
    ensures
        forall|a: int, b: int| 0 <= a < b < keys@.len() ==> (#[trigger] keys@[a])@ != (#[trigger] keys@[b])@,
        forall|i: int| 0 <= i < es@.len() && is_http(#[trigger] es@[i]) ==> views(keys@).contains(es@[i].path@),
        forall|q: int| 0 <= q < keys@.len() ==> some_http_path(es@, (#[trigger] keys@[q])@),
{
    let mut keys: Vec<String> = Vec::new();
    let mut j: usize = 0;
    while j < es.len()
        invariant
            j <= es@.len(),
            forall|a: int, b: int| 0 <= a < b < keys@.len() ==> (#[trigger] keys@[a])@ != (#[trigger] keys@[b])@,
            forall|i: int| 0 <= i < j && is_http(#[trigger] es@[i]) ==> views(keys@).contains(es@[i].path@),
            forall|q: int| 0 <= q < keys@.len() ==> some_http_path(es@, (#[trigger] keys@[q])@),
        decreases es.len() - j,
    {
        let ghost before = keys@;
        if http(&es[j]) && !holds(&keys, es[j].path.as_str()) {
            keys.push(es[j].path.clone());
            proof {
                assert(views(keys@) =~= views(before).push(es@[j as int].path@));
                assert forall|a: int, b: int| 0 <= a < b < keys@.len() implies (#[trigger] keys@[a])@ != (#[trigger] keys@[b])@ by {
                    if b == before.len() {
                        assert(views(before)[a] == keys@[a]@);
                    } else {
                        assert(keys@[a] == before[a] && keys@[b] == before[b]);
                    }
                }
                assert forall|i: int| 0 <= i <= j && is_http(#[trigger] es@[i]) implies views(keys@).contains(es@[i].path@) by {
                    if i < j {
                        let w = choose|w: int| 0 <= w < views(before).len() && views(before)[w] == es@[i].path@;
                        assert(views(keys@)[w] == es@[i].path@);
                    } else {
                        assert(views(keys@)[before.len() as int] == es@[i].path@);
                    }
                }
                assert forall|q: int| 0 <= q < keys@.len() implies some_http_path(es@, (#[trigger] keys@[q])@) by {
                    if q < before.len() {
                        assert(keys@[q] == before[q]);
                    } else {
                        assert(is_http(es@[j as int]) && es@[j as int].path@ == keys@[q]@);
                    }
                }
            }
        }
        j = j + 1;
    }
    keys
}

fn methods_at(es: &Vec<ApiEndpoint>, path: &String) -> (keys: Vec<String>)
    ensures
        forall|a: int, b: int| 0 <= a < b < keys@.len() ==> (#[trigger] keys@[a])@ != (#[trigger] keys@[b])@,
        forall|i: int| 0 <= i < es@.len() && is_http(#[trigger] es@[i]) && es@[i].path@ == path@
            ==> views(keys@).contains(spec_to_lowercase(es@[i].method@)),
        forall|q: int| 0 <= q < keys@.len() ==> some_serving(es@, path@, (#[trigger] keys@[q])@),
{
    let mut keys: Vec<String> = Vec::new();
    let mut j: usize = 0;
    while j < es.len()
        invariant
            j <= es@.len(),
            forall|a: int, b: int| 0 <= a < b < keys@.len() ==> (#[trigger] keys@[a])@ != (#[trigger] keys@[b])@,
            forall|i: int| 0 <= i < j && is_http(#[trigger] es@[i]) && es@[i].path@ == path@
                ==> views(keys@).contains(spec_to_lowercase(es@[i].method@)),
            forall|q: int| 0 <= q < keys@.len() ==> some_serving(es@, path@, (#[trigger] keys@[q])@),
        decreases es.len() - j,
    {
        let ghost before = keys@;
        if http(&es[j]) && crate::model::str_equal(es[j].path.as_str(), path.as_str()) {
            let method = to_lowercase(es[j].method.as_str());
            if !holds(&keys, method.as_str()) {
                keys.push(method);
                proof {
                    let m = spec_to_lowercase(es@[j as int].method@);
                    assert(views(keys@) =~= views(before).push(m));
                    assert forall|a: int, b: int| 0 <= a < b < keys@.len() implies (#[trigger] keys@[a])@ != (#[trigger] keys@[b])@ by {
                        if b == before.len() {
                            assert(views(before)[a] == keys@[a]@);
                        } else {
                            assert(keys@[a] == before[a] && keys@[b] == before[b]);
                        }
                    }
                    assert forall|i: int| 0 <= i <= j && is_http(#[trigger] es@[i]) && es@[i].path@ == path@
                        implies views(keys@).contains(spec_to_lowercase(es@[i].method@)) by {
                        if i < j {
                            let w = choose|w: int| 0 <= w < views(before).len() && views(before)[w] == spec_to_lowercase(es@[i].method@);
                            assert(views(keys@)[w] == spec_to_lowercase(es@[i].method@));
                        } else {
                            assert(views(keys@)[before.len() as int] == m);
                        }
                    }
                    assert forall|q: int| 0 <= q < keys@.len() implies some_serving(es@, path@, (#[trigger] keys@[q])@) by {
                        if q < before.len() {
                            assert(keys@[q] == before[q]);
                        } else {
                            assert(serves(es@[j as int], path@, keys@[q]@));
                        }
                    }
                }
            }
        }
        j = j + 1;
    }
    keys
}

fn last_serving(es: &Vec<ApiEndpoint>, path: &String, method: &String) -> (res: usize)
    requires
        some_serving(es@, path@, method@),
    ensures
        last_serving_at(es@, path@, method@, res as int),
{
    let mut last: usize = 0;
    let mut found = false;
    let mut i: usize = 0;
    while i < es.len()
        invariant
            i <= es@.len(),
            found ==> last < i && serves(es@[last as int], path@, method@) && forall|t: int| last < t < i ==> !serves(es@[t], path@, method@),
            !found ==> forall|t: int| 0 <= t < i ==> !serves(es@[t], path@, method@),
        decreases es.len() - i,
    {
        let lower = to_lowercase(es[i].method.as_str());
        if http(&es[i]) && crate::model::str_equal(es[i].path.as_str(), path.as_str())
            && crate::model::str_equal(lower.as_str(), method.as_str()) {
            last = i;
            found = true;
        }
        i = i + 1;
    }
    proof {
        if !found {
            let w = choose|w: int| 0 <= w < es@.len() && serves(es@[w], path@, method@);
            assert(!serves(es@[w], path@, method@));
        }
    }
    last
}

fn path_doc(es: &Vec<ApiEndpoint>, path: &String) -> (res: JsonDoc)
    ensures
        methods_describe(res, es@, path@),
{
    let methods = methods_at(es, path);
    let mut members: Vec<(String, JsonDoc)> = Vec::new();
    let mut k: usize = 0;
    while k < methods.len()
        invariant
            k <= methods@.len(),
            forall|q: int| 0 <= q < methods@.len() ==> some_serving(es@, path@, (#[trigger] methods@[q])@),
            members@.len() == k,
            forall|q: int| 0 <= q < k ==> (#[trigger] members@[q]).0@ == methods@[q]@,
            forall|q: int| 0 <= q < k ==> describes_last_operation(es@, path@, #[trigger] members@[q]),
        decreases methods.len() - k,
    {
        assert(some_serving(es@, path@, methods@[k as int]@));
        let last = last_serving(es, path, &methods[k]);
        let ghost before = members@;
        members.push((methods[k].clone(), operation_doc(&es[last])));
        proof {
            assert forall|q: int| 0 <= q <= k implies describes_last_operation(es@, path@, #[trigger] members@[q]) by {
                if q < k {
                    assert(members@[q] == before[q]);
                } else {
                    assert(last_serving_at(es@, path@, members@[q].0@, last as int));
                }
            }
        }
        k = k + 1;
    }
    proof {
        assert forall|a: int, b: int| 0 <= a < b < members@.len() implies (#[trigger] members@[a]).0@ != (#[trigger] members@[b]).0@ by {
            assert(methods@[a]@ != methods@[b]@);
        }
        assert forall|i: int| 0 <= i < es@.len() && is_http(#[trigger] es@[i]) && es@[i].path@ == path@
            implies key_listed(members@, spec_to_lowercase(es@[i].method@)) by {
            let m = spec_to_lowercase(es@[i].method@);
            assert(views(methods@).contains(m));
            let w = choose|w: int| 0 <= w < views(methods@).len() && views(methods@)[w] == m;
            assert(members@[w].0@ == methods@[w]@);
        }
    }
    JsonDoc::Object(members)
}

/// The OpenAPI 3.1.0 document of a project's endpoints: those served over HTTP, grouped by
/// path, then by method in lower case, each described by the last endpoint with that path
/// and method (its id, tags, parameters, responses, provenance and handler).
pub fn openapi_document(project_name: &str, endpoints: &Vec<ApiEndpoint>) -> (res: JsonDoc)
    ensures
        document_describes(res, project_name@, endpoints@),
{
    let paths = http_paths(endpoints);
    let mut members: Vec<(String, JsonDoc)> = Vec::new();
    let mut k: usize = 0;
    while k < paths.len()
        invariant
            k <= paths@.len(),
            forall|q: int| 0 <= q < paths@.len() ==> some_http_path(endpoints@, (#[trigger] paths@[q])@),
            members@.len() == k,
            forall|q: int| 0 <= q < k ==> (#[trigger] members@[q]).0@ == paths@[q]@,
            forall|q: int| 0 <= q < k ==> path_described(endpoints@, #[trigger] members@[q]),
        decreases paths.len() - k,
    {
        let ghost before = members@;
        members.push((paths[k].clone(), path_doc(endpoints, &paths[k])));
        proof {
            assert forall|q: int| 0 <= q <= k implies path_described(endpoints@, #[trigger] members@[q]) by {
                if q < k {
                    assert(members@[q] == before[q]);
                } else {
                    assert(some_http_path(endpoints@, paths@[q]@));
                }
            }
        }
        k = k + 1;
    }
    proof {
        assert forall|a: int, b: int| 0 <= a < b < members@.len() implies (#[trigger] members@[a]).0@ != (#[trigger] members@[b]).0@ by {
            assert(paths@[a]@ != paths@[b]@);
        }
        assert forall|i: int| 0 <= i < endpoints@.len() && is_http(#[trigger] endpoints@[i])
            implies key_listed(members@, endpoints@[i].path@) by {
            assert(views(paths@).contains(endpoints@[i].path@));
            let w = choose|w: int| 0 <= w < views(paths@).len() && views(paths@)[w] == endpoints@[i].path@;
            assert(members@[w].0@ == paths@[w]@);
        }
    }
    let info = JsonDoc::Object(vec![
        (String::from_str("title"), JsonDoc::Text(String::from_str(project_name))),
        (String::from_str("version"), JsonDoc::Text(String::from_str("1.0.0"))),
        (
            String::from_str("description"),
            JsonDoc::Text(String::from_str(
                "Contrat d\u{e9}couvert par Code Atlas ; les sch\u{e9}mas inconnus ne sont pas invent\u{e9}s.",
            )),
        ),
    ]);
    JsonDoc::Object(vec![
        (String::from_str("openapi"), JsonDoc::Text(String::from_str("3.1.0"))),
        (String::from_str("info"), info),
        (String::from_str("paths"), JsonDoc::Object(members)),
    ])
}


/// A request record never shows a credential: the header member of every credential header
/// holds the mask, and every other header its value.
pub proof fn law_record_masks_credentials(r: ApiExecuteRequest, d: JsonDoc, k: int)
    requires
        masked_record(r, d),
        0 <= k < r.headers@.len(),
    ensures
        match d {
            JsonDoc::Object(ms) => match ms@[3].1 {
                JsonDoc::Object(hs) => hs@[k].0@ == r.headers@[k].0@ && doc_text(hs@[k].1) == Some(
                    if spec_secret_header(r.headers@[k].0@) { "\u{2022}\u{2022}\u{2022}\u{2022}"@ } else { r.headers@[k].1@ },
                ),
                _ => false,
            },
            _ => false,
        },
{
}

} // verus!
