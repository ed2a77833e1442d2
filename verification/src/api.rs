//! The API explorer: requests as they are kept and shared, and what code says of endpoints.
use vstd::prelude::*;

use crate::model::{copy_opt_string, ProjectGraph};
use crate::text::{
    chars_of, find_char, index_of, seq_contains, spec_to_lowercase, spec_trim, string_of, to_lowercase,
    trim, contains, seq_less,
};

verus! {

/// Where a parameter travels.
#[derive(Clone, Copy, Debug, PartialEq, Eq, Structural)]
pub enum ApiParameterLocation {
    Path,
    Query,
    Header,
    Cookie,
}

/// A parameter of an endpoint, and where it was learnt from.
#[derive(Clone, Debug)]
pub struct ApiParameter {
    pub name: String,
    pub location: ApiParameterLocation,
    pub required: bool,
    pub schema_type: String,
    pub source: String,
}

/// The kind of environment a request targets.
#[derive(Clone, Copy, Debug, PartialEq, Eq, Structural)]
pub enum ApiEnvironmentKind {
    Local,
    Development,
    Staging,
    Production,
    Custom,
}

/// A request as the explorer executes, saves and shares it. Headers are kept sorted by
/// name, each name once.
#[derive(Clone, Debug)]
pub struct ApiExecuteRequest {
    pub endpoint_id: Option<String>,
    pub method: String,
    pub url: String,
    pub headers: Vec<(String, String)>,
    pub body: Option<String>,
    pub environment: ApiEnvironmentKind,
    pub confirm_destructive: bool,
}

/// Header names sorted strictly: each name once, in increasing order.
pub open spec fn headers_sorted(h: Seq<(String, String)>) -> bool {
    forall|i: int, j: int| 0 <= i < j < h.len() ==> seq_less(#[trigger] h[i].0@, #[trigger] h[j].0@)
}

/// A named environment with its base URL and variables (sorted by name, each once).
#[derive(Clone, Debug)]
pub struct ApiEnvironment {
    pub id: String,
    pub project_id: String,
    pub name: String,
    pub kind: ApiEnvironmentKind,
    pub base_url: String,
    pub variables: Vec<(String, String)>,
    pub sensitive_variables: Vec<String>,
    pub created_at: i64,
    pub updated_at: i64,
}

/// A request saved by the user, possibly in a collection.
#[derive(Clone, Debug)]
pub struct ApiSavedRequest {
    pub id: String,
    pub project_id: String,
    pub collection_id: Option<String>,
    pub name: String,
    pub favorite: bool,
    pub request: ApiExecuteRequest,
    pub created_at: i64,
    pub updated_at: i64,
}

/// An ordered collection of saved requests, with the variables extracted between them
/// (sorted by name, each once).
#[derive(Clone, Debug)]
pub struct ApiCollection {
    pub id: String,
    pub project_id: String,
    pub name: String,
    pub request_ids: Vec<String>,
    pub variable_extractions: Vec<(String, String)>,
    pub created_at: i64,
    pub updated_at: i64,
}

/// What came back from an executed request. Headers are sorted by name, each once.
#[derive(Clone, Debug)]
pub struct ApiExecutionResponse {
    pub status: u16,
    pub duration_ms: u128,
    pub size: usize,
    pub headers: Vec<(String, String)>,
    pub cookies: Vec<String>,
    pub body: String,
    pub content_type: Option<String>,
    pub truncated: bool,
}

// ---------------------------------------------------------------------------
// Secrets
// ---------------------------------------------------------------------------

/// Headers that carry credentials, by lowercase name.
pub open spec fn spec_secret_header(name: Seq<char>) -> bool {
    let l = spec_to_lowercase(name);
    l == "authorization"@ || l == "x-api-key"@ || l == "proxy-authorization"@ || l == "cookie"@ || l == "set-cookie"@
}

fn str_is(a: &str, b: &str) -> (res: bool)
    ensures
        res == (a@ == b@),
{
    crate::model::str_equal(a, b)
}

pub(crate) fn is_secret_header(name: &str) -> (res: bool)
    ensures
        res == spec_secret_header(name@),
{
    let l = to_lowercase(name);
    let s = l.as_str();
    str_is(s, "authorization") || str_is(s, "x-api-key") || str_is(s, "proxy-authorization") || str_is(s, "cookie")
        || str_is(s, "set-cookie")
}

/// The headers that carry no credential, in their order.
pub open spec fn public_headers(h: Seq<(String, String)>) -> Seq<(String, String)>
    decreases h.len(),
{
    if h.len() == 0 {
        Seq::empty()
    } else if spec_secret_header(h.last().0@) {
        public_headers(h.drop_last())
    } else {
        public_headers(h.drop_last()).push(h.last())
    }
}

proof fn lemma_public_headers_from(h: Seq<(String, String)>, k: int)
    requires
        0 <= k < public_headers(h).len(),
    ensures
        exists|i: int| 0 <= i < h.len() && h[i] == public_headers(h)[k] && !spec_secret_header(h[i].0@),
    decreases h.len(),
{
    let p = public_headers(h.drop_last());
    if k < p.len() {
        lemma_public_headers_from(h.drop_last(), k);
        let i = choose|i: int| 0 <= i < h.drop_last().len() && h.drop_last()[i] == p[k]
            && !spec_secret_header(h.drop_last()[i].0@);
        assert(h[i] == h.drop_last()[i]);
    } else {
        assert(h[h.len() - 1] == h.last());
    }
}

/// Dropping credential headers keeps the headers sorted.
pub proof fn lemma_public_headers_sorted(h: Seq<(String, String)>)
    requires
        headers_sorted(h),
    ensures
        headers_sorted(public_headers(h)),
    decreases h.len(),
{
    if h.len() > 0 {
        let d = h.drop_last();
        assert(headers_sorted(d)) by {
            assert forall|i: int, j: int| 0 <= i < j < d.len() implies seq_less(#[trigger] d[i].0@, #[trigger] d[j].0@) by {
                assert(d[i] == h[i] && d[j] == h[j]);
            }
        }
        lemma_public_headers_sorted(d);
        if !spec_secret_header(h.last().0@) {
            let p = public_headers(d);
            let q = p.push(h.last());
            assert forall|i: int, j: int| 0 <= i < j < q.len() implies seq_less(#[trigger] q[i].0@, #[trigger] q[j].0@) by {
                if j == q.len() - 1 {
                    assert(q[j] == h.last());
                    assert(q[i] == p[i]);
                    lemma_public_headers_from(d, i);
                    let a = choose|a: int| 0 <= a < d.len() && d[a] == p[i] && !spec_secret_header(d[a].0@);
                    assert(h[a] == d[a]);
                    assert(seq_less(h[a].0@, h[h.len() - 1].0@));
                } else {
                    assert(q[i] == p[i] && q[j] == p[j]);
                    assert(seq_less(p[i].0@, p[j].0@));
                }
            }
        }
    }
}

/// The request as it is persisted: credential headers dropped, destructive confirmation
/// withdrawn, everything else unchanged.
pub fn request_without_secrets(request: &ApiExecuteRequest) -> (res: ApiExecuteRequest)
    ensures
        res.endpoint_id == request.endpoint_id,
        res.method == request.method,
        res.url == request.url,
        res.headers@ == public_headers(request.headers@),
        res.body == request.body,
        res.environment == request.environment,
        !res.confirm_destructive,
        forall|k: int| 0 <= k < res.headers@.len() ==> !spec_secret_header(#[trigger] res.headers@[k].0@),
{
    let mut headers: Vec<(String, String)> = Vec::new();
    let mut i: usize = 0;
    while i < request.headers.len()
        invariant
            i <= request.headers@.len(),
            headers@ == public_headers(request.headers@.subrange(0, i as int)),
        decreases request.headers.len() - i,
    {
        let ghost pre = request.headers@.subrange(0, i + 1);
        proof {
            assert(pre.drop_last() =~= request.headers@.subrange(0, i as int));
        }
        let (name, value) = &request.headers[i];
        if !is_secret_header(name.as_str()) {
            headers.push((name.clone(), value.clone()));
        }
        i = i + 1;
    }
    proof {
        assert(request.headers@.subrange(0, request.headers@.len() as int) =~= request.headers@);
        assert forall|k: int| 0 <= k < headers@.len() implies !spec_secret_header(#[trigger] headers@[k].0@) by {
            lemma_public_headers_from(request.headers@, k);
        }
    }
    ApiExecuteRequest {
        endpoint_id: copy_opt_string(&request.endpoint_id),
        method: request.method.clone(),
        url: request.url.clone(),
        headers,
        body: copy_opt_string(&request.body),
        environment: request.environment,
        confirm_destructive: false,
    }
}

// ---------------------------------------------------------------------------
// Shell rendering
// ---------------------------------------------------------------------------

/// `s` with each single quote written `'"'"'`.
pub open spec fn quote_escaped(s: Seq<char>) -> Seq<char>
    decreases s.len(),
{
    if s.len() == 0 {
        Seq::empty()
    } else {
        quote_escaped(s.drop_last()) + if s.last() == '\'' { seq!['\'', '"', '\'', '"', '\''] } else { seq![s.last()] }
    }
}

/// A single-quoted shell word holding exactly `s`.
pub open spec fn spec_shell_quote(s: Seq<char>) -> Seq<char> {
    seq!['\''] + quote_escaped(s) + seq!['\'']
}

/// Quotes `value` as one shell word.
pub fn shell_quote(value: &str) -> (res: String)
    ensures
        res@ == spec_shell_quote(value@),
{
    let v = chars_of(value);
    let mut out: Vec<char> = Vec::new();
    out.push('\'');
    let mut i: usize = 0;
    while i < v.len()
        invariant
            i <= v@.len(),
            v@ == value@,
            out@ == seq!['\''] + quote_escaped(v@.subrange(0, i as int)),
        decreases v.len() - i,
    {
        let ghost pre = v@.subrange(0, i + 1);
        proof {
            assert(pre.drop_last() =~= v@.subrange(0, i as int));
        }
        if v[i] == '\'' {
            out.push('\'');
            out.push('"');
            out.push('\'');
            out.push('"');
            out.push('\'');
        } else {
            out.push(v[i]);
        }
        proof {
            assert(out@ =~= seq!['\''] + quote_escaped(pre));
        }
        i = i + 1;
    }
    out.push('\'');
    proof {
        assert(v@.subrange(0, v@.len() as int) =~= v@);
    }
    string_of(&out)
}

/// The `-H` arguments of the first `n` headers.
pub open spec fn curl_headers(h: Seq<(String, String)>) -> Seq<char>
    decreases h.len(),
{
    if h.len() == 0 {
        Seq::empty()
    } else {
        curl_headers(h.drop_last()) + " -H "@ + spec_shell_quote(h.last().0@ + ": "@ + h.last().1@)
    }
}

/// The request as a `curl` command line.
pub open spec fn spec_curl(r: ApiExecuteRequest) -> Seq<char> {
    "curl -X "@ + spec_shell_quote(r.method@) + " "@ + spec_shell_quote(r.url@) + curl_headers(r.headers@)
        + match r.body {
        Some(b) => " --data-raw "@ + spec_shell_quote(b@),
        None => Seq::empty(),
    }
}

fn push_str(out: &mut Vec<char>, s: &str)
    ensures
        final(out)@ == old(out)@ + s@,
{
    let c = chars_of(s);
    crate::text::append_chars(out, &c);
}

/// The request as a `curl` command that reproduces it.
pub fn request_as_curl(request: &ApiExecuteRequest) -> (res: String)
    ensures
        res@ == spec_curl(*request),
{
    let mut out: Vec<char> = Vec::new();
    push_str(&mut out, "curl -X ");
    push_str(&mut out, shell_quote(request.method.as_str()).as_str());
    push_str(&mut out, " ");
    push_str(&mut out, shell_quote(request.url.as_str()).as_str());
    let ghost head = out@;
    let mut i: usize = 0;
    while i < request.headers.len()
        invariant
            i <= request.headers@.len(),
            out@ == head + curl_headers(request.headers@.subrange(0, i as int)),
        decreases request.headers.len() - i,
    {
        let ghost pre = request.headers@.subrange(0, i + 1);
        proof {
            assert(pre.drop_last() =~= request.headers@.subrange(0, i as int));
        }
        let (name, value) = &request.headers[i];
        push_str(&mut out, " -H ");
        let mut line = name.clone();
        line.append(": ");
        line.append(value.as_str());
        push_str(&mut out, shell_quote(line.as_str()).as_str());
        proof {
            assert(out@ =~= head + curl_headers(pre));
        }
        i = i + 1;
    }
    proof {
        assert(request.headers@.subrange(0, request.headers@.len() as int) =~= request.headers@);
    }
    match &request.body {
        Some(b) => {
            push_str(&mut out, " --data-raw ");
            push_str(&mut out, shell_quote(b.as_str()).as_str());
        },
        None => {},
    }
    proof {
        reveal_strlit("curl -X ");
        reveal_strlit(" ");
        assert(out@ =~= spec_curl(*request));
    }
    string_of(&out)
}


// ---------------------------------------------------------------------------
// Cookies and paths
// ---------------------------------------------------------------------------

/// A `Set-Cookie` value with its value hidden: `name=••••` and the attributes after the
/// first `;`, or a fixed notice when there is no `=`.
pub open spec fn spec_mask_cookie(c: Seq<char>) -> Seq<char> {
    match index_of(c, '=') {
        None => "cookie masqué"@,
        Some(e) => {
            let rest = c.subrange(e + 1, c.len() as int);
            let attributes = match index_of(rest, ';') {
                Some(s) => ";"@ + rest.subrange(s + 1, rest.len() as int),
                None => Seq::empty(),
            };
            c.subrange(0, e) + "=••••"@ + attributes
        },
    }
}

/// Hides the value of a cookie, keeping its name and attributes.
pub fn mask_cookie(cookie: &str) -> (res: String)
    ensures
        res@ == spec_mask_cookie(cookie@),
{
    let c = chars_of(cookie);
    let n = c.len();
    match find_char(&c, '=') {
        None => String::from_str("cookie masqué"),
        Some(e) => {
            proof {
                crate::text::lemma_index_of_from_bounds(c@, '=', 0);
                assert(crate::text::index_of_from(c@, '=', 0) == Some(e as int));
            }
            let rest = crate::text::slice_chars(&c, e + 1, n);
            let rn = rest.len();
            let mut out = crate::text::slice_chars(&c, 0, e);
            push_str(&mut out, "=••••");
            match find_char(&rest, ';') {
                Some(sc) => {
                    proof {
                        crate::text::lemma_index_of_from_bounds(rest@, ';', 0);
                        assert(crate::text::index_of_from(rest@, ';', 0) == Some(sc as int));
                    }
                    push_str(&mut out, ";");
                    let attributes = crate::text::slice_chars(&rest, sc + 1, rn);
                    crate::text::append_chars(&mut out, &attributes);
                },
                None => {},
            }
            proof {
                assert(out@ =~= spec_mask_cookie(cookie@));
            }
            string_of(&out)
        },
    }
}

/// `s` without the leading occurrences of `c`.
pub open spec fn strip_leading(s: Seq<char>, c: char) -> Seq<char>
    decreases s.len(),
{
    if s.len() > 0 && s[0] == c { strip_leading(s.drop_first(), c) } else { s }
}

/// `s` without the trailing occurrences of `c`.
pub open spec fn strip_trailing(s: Seq<char>, c: char) -> Seq<char>
    decreases s.len(),
{
    if s.len() > 0 && s.last() == c { strip_trailing(s.drop_last(), c) } else { s }
}

/// `s` without `c` at either end, as `str::trim_matches` gives it.
pub open spec fn strip_char(s: Seq<char>, c: char) -> Seq<char> {
    strip_trailing(strip_leading(s, c), c)
}

fn strip_char_exec(s: &Vec<char>, c: char) -> (res: Vec<char>)
    ensures
        res@ == strip_char(s@, c),
{
    let n = s.len();
    let mut a: usize = 0;
    assert(s@.subrange(0, n as int) =~= s@);
    while a < n && s[a] == c
        invariant
            a <= n == s@.len(),
            strip_leading(s@, c) == strip_leading(s@.subrange(a as int, n as int), c),
        decreases n - a,
    {
        assert(s@.subrange(a as int, n as int).drop_first() =~= s@.subrange(a + 1, n as int));
        a = a + 1;
    }
    let mut b: usize = n;
    let ghost lead = s@.subrange(a as int, n as int);
    assert(lead.subrange(0, (n - a) as int) =~= lead);
    while b > a && s[b - 1] == c
        invariant
            a <= b <= n == s@.len(),
            lead == s@.subrange(a as int, n as int),
            strip_trailing(lead, c) == strip_trailing(s@.subrange(a as int, b as int), c),
        decreases b,
    {
        assert(s@.subrange(a as int, b as int).drop_last() =~= s@.subrange(a as int, b - 1));
        b = b - 1;
    }
    crate::text::slice_chars(s, a, b)
}

/// A route path: trimmed, unquoted, with a leading `/`.
pub open spec fn spec_normalize_path(path: Seq<char>) -> Seq<char> {
    let p = strip_char(strip_char(spec_trim(path), '"'), '\'');
    if p.len() > 0 && p[0] == '/' { p } else { seq!['/'] + p }
}

/// Normalizes a route path taken from code.
pub fn normalize_path(path: &str) -> (res: String)
    ensures
        res@ == spec_normalize_path(path@),
        res@.len() > 0 && res@[0] == '/',
{
    let t = trim(&chars_of(path));
    let a = strip_char_exec(&t, '"');
    let p = strip_char_exec(&a, '\'');
    if p.len() > 0 && p[0] == '/' {
        string_of(&p)
    } else {
        let mut out: Vec<char> = Vec::new();
        out.push('/');
        crate::text::append_chars(&mut out, &p);
        string_of(&out)
    }
}

// ---------------------------------------------------------------------------
// What source code says of an endpoint
// ---------------------------------------------------------------------------

fn code_header(name: &str, required: bool) -> (res: ApiParameter)
    ensures
        res.name@ == name@,
        res.location == ApiParameterLocation::Header,
        res.required == required,
{
    ApiParameter {
        name: String::from_str(name),
        location: ApiParameterLocation::Header,
        required,
        schema_type: String::from_str("string"),
        source: String::from_str("code"),
    }
}

/// The well-known headers whose names the source mentions, in a fixed order.
pub open spec fn spec_discovered_headers(lower: Seq<char>) -> Seq<Seq<char>> {
    (if seq_contains(lower, "authorization"@) { seq!["Authorization"@] } else { Seq::empty() })
        + (if seq_contains(lower, "content-type"@) { seq!["Content-Type"@] } else { Seq::empty() })
        + (if seq_contains(lower, "x-api-key"@) { seq!["X-API-Key"@] } else { Seq::empty() })
        + (if seq_contains(lower, "x-request-id"@) { seq!["X-Request-ID"@] } else { Seq::empty() })
}

/// Header parameters mentioned by the source; only `Authorization` is required.
pub fn discover_headers(source: &str) -> (res: Vec<ApiParameter>)
    ensures
        res@.map_values(|p: ApiParameter| p.name@) == spec_discovered_headers(spec_to_lowercase(source@)),
        forall|k: int| 0 <= k < res@.len() ==> (#[trigger] res@[k]).location == ApiParameterLocation::Header
            && res@[k].required == (res@[k].name@ == "Authorization"@),
{
    let lower = to_lowercase(source);
    let l = chars_of(lower.as_str());
    let mut out: Vec<ApiParameter> = Vec::new();
    proof {
        reveal_strlit("Authorization");
        reveal_strlit("Content-Type");
        reveal_strlit("X-API-Key");
        reveal_strlit("X-Request-ID");
        assert("Content-Type"@[0] != "Authorization"@[0]);
        assert("X-API-Key"@[0] != "Authorization"@[0]);
        assert("X-Request-ID"@[0] != "Authorization"@[0]);
    }
    if contains(&l, &chars_of("authorization")) {
        out.push(code_header("Authorization", true));
    }
    if contains(&l, &chars_of("content-type")) {
        out.push(code_header("Content-Type", false));
    }
    if contains(&l, &chars_of("x-api-key")) {
        out.push(code_header("X-API-Key", false));
    }
    if contains(&l, &chars_of("x-request-id")) {
        out.push(code_header("X-Request-ID", false));
    }
    proof {
        assert(out@.map_values(|p: ApiParameter| p.name@) =~= spec_discovered_headers(spec_to_lowercase(source@)));
    }
    out
}

/// The authentication schemes the source suggests, sorted and each once.
pub open spec fn spec_discovered_auth(lower: Seq<char>) -> Seq<Seq<char>> {
    (if seq_contains(lower, "api_key"@) || seq_contains(lower, "x-api-key"@) { seq!["API Key"@] } else { Seq::empty() })
        + (if seq_contains(lower, "basic_auth"@) || seq_contains(lower, "basicauth"@) { seq!["Basic Auth"@] } else { Seq::empty() })
        + (if seq_contains(lower, "bearer"@) || seq_contains(lower, "authorization"@) { seq!["Bearer Token"@] } else { Seq::empty() })
        + (if seq_contains(lower, "cookie"@) || seq_contains(lower, "session"@) { seq!["Cookie/Session"@] } else { Seq::empty() })
}

fn contains_either(l: &Vec<char>, a: &str, b: &str) -> (res: bool)
    ensures
        res == (seq_contains(l@, a@) || seq_contains(l@, b@)),
{
    contains(l, &chars_of(a)) || contains(l, &chars_of(b))
}

/// Authentication schemes suggested by the source, in sorted order.
pub fn discover_auth(source: &str) -> (res: Vec<String>)
    ensures
        res@.map_values(|s: String| s@) == spec_discovered_auth(spec_to_lowercase(source@)),
{
    let lower = to_lowercase(source);
    let l = chars_of(lower.as_str());
    let mut out: Vec<String> = Vec::new();
    if contains_either(&l, "api_key", "x-api-key") {
        out.push(String::from_str("API Key"));
    }
    if contains_either(&l, "basic_auth", "basicauth") {
        out.push(String::from_str("Basic Auth"));
    }
    if contains_either(&l, "bearer", "authorization") {
        out.push(String::from_str("Bearer Token"));
    }
    if contains_either(&l, "cookie", "session") {
        out.push(String::from_str("Cookie/Session"));
    }
    proof {
        assert(out@.map_values(|s: String| s@) =~= spec_discovered_auth(spec_to_lowercase(source@)));
    }
    out
}

/// The request content types the source suggests, sorted and each once.
pub open spec fn spec_discovered_content_types(lower: Seq<char>) -> Seq<Seq<char>> {
    (if seq_contains(lower, "json"@) { seq!["application/json"@] } else { Seq::empty() })
        + (if seq_contains(lower, "form"@) { seq!["application/x-www-form-urlencoded"@] } else { Seq::empty() })
        + (if seq_contains(lower, "multipart"@) { seq!["multipart/form-data"@] } else { Seq::empty() })
}

/// Request content types suggested by the source, in sorted order.
pub fn discover_content_types(source: &str) -> (res: Vec<String>)
    ensures
        res@.map_values(|s: String| s@) == spec_discovered_content_types(spec_to_lowercase(source@)),
{
    let lower = to_lowercase(source);
    let l = chars_of(lower.as_str());
    let mut out: Vec<String> = Vec::new();
    if contains(&l, &chars_of("json")) {
        out.push(String::from_str("application/json"));
    }
    if contains(&l, &chars_of("form")) {
        out.push(String::from_str("application/x-www-form-urlencoded"));
    }
    if contains(&l, &chars_of("multipart")) {
        out.push(String::from_str("multipart/form-data"));
    }
    proof {
        assert(out@.map_values(|s: String| s@) =~= spec_discovered_content_types(spec_to_lowercase(source@)));
    }
    out
}

/// The web framework suggested by the file's path, its source and the project root, all
/// lowercase; the first rule that applies decides.
pub open spec fn spec_framework(path: Seq<char>, source: Seq<char>, root: Seq<char>) -> Seq<char> {
    if seq_contains(path, "app/api/"@) || seq_contains(source, "nextrequest"@) {
        "Next.js"@
    } else if seq_contains(source, "router::new"@) || seq_contains(source, "axum::"@) {
        "Axum"@
    } else if seq_contains(source, "actix_web"@) {
        "Actix"@
    } else if seq_contains(source, "fastapi"@) || seq_contains(source, "@app."@) {
        "FastAPI"@
    } else if seq_contains(source, "django"@) {
        "Django"@
    } else if seq_contains(source, "gin."@) {
        "Gin"@
    } else if seq_contains(source, "echo."@) {
        "Echo"@
    } else if seq_contains(source, "#[route"@) || seq_contains(root, "symfony"@) {
        "Symfony"@
    } else if seq_contains(root, "laravel"@) || seq_contains(path, "routes/api.php"@) {
        "Laravel"@
    } else if seq_contains(source, "@controller"@) || seq_contains(source, "@nestjs"@) {
        "NestJS"@
    } else if seq_contains(source, "express"@) || seq_contains(source, "router."@) {
        "Express"@
    } else {
        "Generic"@
    }
}

fn lower_chars(s: &str) -> (res: Vec<char>)
    ensures
        res@ == spec_to_lowercase(s@),
{
    let l = to_lowercase(s);
    chars_of(l.as_str())
}

/// The web framework an endpoint's file belongs to.
pub fn infer_framework(graph: &ProjectGraph, path: Option<&str>, source: &str) -> (res: String)
    ensures
        res@ == spec_framework(
            spec_to_lowercase(match path { Some(p) => p@, None => Seq::empty() }),
            spec_to_lowercase(source@),
            spec_to_lowercase(graph.root@),
        ),
{
    let empty = String::new();
    let p = match path {
        Some(v) => lower_chars(v),
        None => lower_chars(empty.as_str()),
    };
    let s = lower_chars(source);
    let r = lower_chars(graph.root.as_str());
    let name = if contains_either(&p, "app/api/", "app/api/") || contains(&s, &chars_of("nextrequest")) {
        "Next.js"
    } else if contains_either(&s, "router::new", "axum::") {
        "Axum"
    } else if contains(&s, &chars_of("actix_web")) {
        "Actix"
    } else if contains_either(&s, "fastapi", "@app.") {
        "FastAPI"
    } else if contains(&s, &chars_of("django")) {
        "Django"
    } else if contains(&s, &chars_of("gin.")) {
        "Gin"
    } else if contains(&s, &chars_of("echo.")) {
        "Echo"
    } else if contains(&s, &chars_of("#[route")) || contains(&r, &chars_of("symfony")) {
        "Symfony"
    } else if contains(&r, &chars_of("laravel")) || contains(&p, &chars_of("routes/api.php")) {
        "Laravel"
    } else if contains_either(&s, "@controller", "@nestjs") {
        "NestJS"
    } else if contains_either(&s, "express", "router.") {
        "Express"
    } else {
        "Generic"
    };
    String::from_str(name)
}

// ---------------------------------------------------------------------------
// Destructive requests
// ---------------------------------------------------------------------------

/// Methods that change state on the server.
pub open spec fn spec_destructive_method(method: Seq<char>) -> bool {
    method == "POST"@ || method == "PUT"@ || method == "PATCH"@ || method == "DELETE"@
}

/// Whether executing the request waits for an explicit confirmation: a destructive method
/// against a production or custom environment, or a `DELETE` against a remote host, when
/// the request does not carry the confirmation. `host` is the URL's host, if it has one.
pub open spec fn spec_needs_confirmation(r: ApiExecuteRequest, host: Option<Seq<char>>) -> bool {
    let remote = !(host == Some("localhost"@) || host == Some("127.0.0.1"@) || host == Some("::1"@));
    let protected = r.environment == ApiEnvironmentKind::Production || r.environment == ApiEnvironmentKind::Custom;
    spec_destructive_method(r.method@) && (protected || (remote && r.method@ == "DELETE"@)) && !r.confirm_destructive
}

/// Whether the request must be refused until it is confirmed; `host` is the host of its
/// parsed URL.
pub fn needs_confirmation(request: &ApiExecuteRequest, host: Option<&str>) -> (res: bool)
    ensures
        res == spec_needs_confirmation(*request, match host { Some(h) => Some(h@), None => None }),
{
    let m = request.method.as_str();
    let destructive = str_is(m, "POST") || str_is(m, "PUT") || str_is(m, "PATCH") || str_is(m, "DELETE");
    let local = match host {
        Some(h) => str_is(h, "localhost") || str_is(h, "127.0.0.1") || str_is(h, "::1"),
        None => false,
    };
    let protected = match request.environment {
        ApiEnvironmentKind::Production | ApiEnvironmentKind::Custom => true,
        _ => false,
    };
    destructive && (protected || (!local && str_is(m, "DELETE"))) && !request.confirm_destructive
}


// ---------------------------------------------------------------------------
// Endpoints and coverage
// ---------------------------------------------------------------------------

/// A JSON document, carried as the `serde_json` crate represents it.
#[verifier::external_type_specification]
#[verifier::external_body]
pub struct ExJsonValue(serde_json::Value);

/// A response an endpoint is known to give.
pub struct ApiResponseMetadata {
    pub status: u16,
    pub content_type: Option<String>,
    pub schema: Option<serde_json::Value>,
    pub source: String,
}

/// An HTTP endpoint of the project and what is known of it.
pub struct ApiEndpoint {
    pub id: String,
    pub project_id: String,
    pub method: String,
    pub path: String,
    pub name: String,
    pub framework: String,
    pub transport: String,
    pub handler_node_id: Option<String>,
    pub source_path: Option<String>,
    pub source_start_line: Option<usize>,
    pub source_end_line: Option<usize>,
    pub auth_requirements: Vec<String>,
    pub parameters: Vec<ApiParameter>,
    pub request_content_types: Vec<String>,
    pub request_schema: Option<serde_json::Value>,
    pub responses: Vec<ApiResponseMetadata>,
    pub tags: Vec<String>,
    pub feature_ids: Vec<String>,
    pub source_scope: String,
    pub provenance: String,
    pub security_finding_ids: Vec<String>,
    pub quality_finding_ids: Vec<String>,
    pub has_tests: bool,
}

/// Counts over the endpoints of a project. `by_method` is sorted by method, each once.
#[derive(Clone, Debug)]
pub struct ApiCoverage {
    pub total: usize,
    pub by_method: Vec<(String, usize)>,
    pub documented: usize,
    pub request_schema: usize,
    pub response_schema: usize,
    pub tested: usize,
    pub security_findings: usize,
    pub untested: usize,
}

/// Number of endpoints satisfying `p`.
pub open spec fn count_where(e: Seq<ApiEndpoint>, p: spec_fn(ApiEndpoint) -> bool) -> nat
    decreases e.len(),
{
    if e.len() == 0 {
        0
    } else {
        count_where(e.drop_last(), p) + if p(e.last()) { 1nat } else { 0nat }
    }
}

pub open spec fn has_response_schema(e: ApiEndpoint) -> bool {
    exists|k: int| 0 <= k < e.responses@.len() && (#[trigger] e.responses@[k]).schema is Some
}

proof fn lemma_count_bound(e: Seq<ApiEndpoint>, p: spec_fn(ApiEndpoint) -> bool)
    ensures
        count_where(e, p) <= e.len(),
    decreases e.len(),
{
    if e.len() > 0 {
        lemma_count_bound(e.drop_last(), p);
    }
}

proof fn lemma_tested_split(e: Seq<ApiEndpoint>)
    ensures
        count_where(e, |e: ApiEndpoint| e.has_tests) + count_where(e, |e: ApiEndpoint| !e.has_tests) == e.len(),
    decreases e.len(),
{
    if e.len() > 0 {
        lemma_tested_split(e.drop_last());
    }
}

fn response_schema_known(e: &ApiEndpoint) -> (res: bool)
    ensures
        res == has_response_schema(*e),
{
    let mut k: usize = 0;
    while k < e.responses.len()
        invariant
            k <= e.responses@.len(),
            forall|j: int| 0 <= j < k ==> e.responses@[j].schema is None,
        decreases e.responses.len() - k,
    {
        if e.responses[k].schema.is_some() {
            return true;
        }
        k = k + 1;
    }
    false
}

/// Sorted method counts: each method once, in increasing order, with how many endpoints use it.
pub open spec fn method_counts(e: Seq<ApiEndpoint>, m: Seq<(String, usize)>) -> bool {
    &&& forall|a: int, b: int| 0 <= a < b < m.len() ==> seq_less(#[trigger] m[a].0@, #[trigger] m[b].0@)
    &&& forall|k: int| 0 <= k < m.len() ==> (#[trigger] m[k]).1 == count_method_uses(e, m[k].0@)
    &&& forall|i: int| 0 <= i < e.len() ==> method_listed(m, #[trigger] e[i].method@)
}

/// Number of endpoints using the method.
pub open spec fn count_method_uses(e: Seq<ApiEndpoint>, name: Seq<char>) -> nat
    decreases e.len(),
{
    if e.len() == 0 {
        0
    } else {
        count_method_uses(e.drop_last(), name) + if e.last().method@ == name { 1nat } else { 0nat }
    }
}

/// Some entry counts the method.
pub open spec fn method_listed(m: Seq<(String, usize)>, name: Seq<char>) -> bool {
    exists|k: int| 0 <= k < m.len() && (#[trigger] m[k]).0@ == name
}

proof fn lemma_count_method_step(e: Seq<ApiEndpoint>, x: ApiEndpoint, name: Seq<char>)
    ensures
        count_method_uses(e.push(x), name) == count_method_uses(e, name) + if x.method@ == name { 1nat } else { 0nat },
{
    assert(e.push(x).drop_last() =~= e);
}

proof fn lemma_count_method_absent(e: Seq<ApiEndpoint>, name: Seq<char>)
    requires
        forall|i: int| 0 <= i < e.len() ==> e[i].method@ != name,
    ensures
        count_method_uses(e, name) == 0,
    decreases e.len(),
{
    if e.len() > 0 {
        lemma_count_method_absent(e.drop_last(), name);
    }
}

/// Adds one endpoint's method to sorted method counts.
fn count_method(m: &mut Vec<(String, usize)>, method: &str, Ghost(seen): Ghost<Seq<ApiEndpoint>>, Ghost(x): Ghost<ApiEndpoint>)
    requires
        method_counts(seen, old(m)@),
        x.method@ == method@,
        forall|k: int| 0 <= k < old(m)@.len() ==> old(m)@[k].1 <= seen.len(),
        seen.len() < usize::MAX,
    ensures
        method_counts(seen.push(x), final(m)@),
        forall|k: int| 0 <= k < final(m)@.len() ==> final(m)@[k].1 <= seen.len() + 1,
{
    let ghost before = m@;
    let mut p: usize = 0;
    while p < m.len() && crate::text::str_less(m[p].0.as_str(), method)
        invariant
            p <= m@.len(),
            m@ == before,
            forall|k: int| 0 <= k < p ==> seq_less(m@[k].0@, method@),
        decreases m.len() - p,
    {
        p = p + 1;
    }
    let ghost s2 = seen.push(x);
    if p < m.len() && crate::model::str_equal(m[p].0.as_str(), method) {
        let c = m[p].1;
        let name = m[p].0.clone();
        m.set(p, (name, c + 1));
        proof {
            assert forall|k: int| 0 <= k < m@.len() implies (#[trigger] m@[k]).1 == count_method_uses(s2, m@[k].0@) by {
                lemma_count_method_step(seen, x, m@[k].0@);
                if k != p {
                    assert(m@[k] == before[k]);
                    if k < p {
                        crate::text::lemma_seq_less_irreflexive(method@);
                    } else {
                        assert(seq_less(before[p as int].0@, before[k].0@));
                        crate::text::lemma_seq_less_irreflexive(method@);
                    }
                }
            }
            assert forall|i: int| 0 <= i < s2.len() implies method_listed(m@, #[trigger] s2[i].method@) by {
                if i == seen.len() {
                    assert(m@[p as int].0@ == s2[i].method@);
                } else {
                    assert(s2[i] == seen[i]);
                    let k = choose|k: int| 0 <= k < before.len() && (#[trigger] before[k]).0@ == seen[i].method@;
                    assert(m@[k].0@ == before[k].0@);
                }
            }
            assert forall|a: int, b: int| 0 <= a < b < m@.len() implies seq_less(#[trigger] m@[a].0@, #[trigger] m@[b].0@) by {
                assert(m@[a].0@ == before[a].0@ && m@[b].0@ == before[b].0@);
            }
        }
    } else {
        m.insert(p, (String::from_str(method), 1));
        proof {
            if p < before.len() {
                crate::text::lemma_seq_less_total(before[p as int].0@, method@);
            }
            assert forall|i: int| 0 <= i < seen.len() implies seen[i].method@ != method@ by {
                let k = choose|k: int| 0 <= k < before.len() && (#[trigger] before[k]).0@ == seen[i].method@;
                if k < p {
                    crate::text::lemma_seq_less_irreflexive(method@);
                } else {
                    if k > p {
                        crate::text::lemma_seq_less_trans(method@, before[p as int].0@, before[k].0@);
                    }
                    crate::text::lemma_seq_less_irreflexive(method@);
                }
            }
            lemma_count_method_absent(seen, method@);
            assert forall|k: int| 0 <= k < m@.len() implies (#[trigger] m@[k]).1 == count_method_uses(s2, m@[k].0@) by {
                lemma_count_method_step(seen, x, m@[k].0@);
                if k < p {
                    assert(m@[k] == before[k]);
                    crate::text::lemma_seq_less_irreflexive(method@);
                } else if k > p {
                    assert(m@[k] == before[k - 1]);
                    crate::text::lemma_seq_less_irreflexive(method@);
                }
            }
            assert forall|i: int| 0 <= i < s2.len() implies method_listed(m@, #[trigger] s2[i].method@) by {
                if i == seen.len() {
                    assert(m@[p as int].0@ == s2[i].method@);
                } else {
                    assert(s2[i] == seen[i]);
                    let k = choose|k: int| 0 <= k < before.len() && (#[trigger] before[k]).0@ == seen[i].method@;
                    if k < p {
                        assert(m@[k].0@ == before[k].0@);
                    } else {
                        assert(m@[k + 1].0@ == before[k].0@);
                    }
                }
            }
            assert forall|a: int, b: int| 0 <= a < b < m@.len() implies seq_less(#[trigger] m@[a].0@, #[trigger] m@[b].0@) by {
                if a < p && b < p {
                    assert(m@[a] == before[a] && m@[b] == before[b]);
                } else if a < p && b == p {
                    assert(m@[a] == before[a]);
                } else if a < p {
                    assert(m@[a] == before[a] && m@[b] == before[b - 1]);
                    crate::text::lemma_seq_less_trans(before[a].0@, method@, before[p as int].0@);
                    if b - 1 > p {
                        crate::text::lemma_seq_less_trans(before[a].0@, before[p as int].0@, before[b - 1].0@);
                    }
                } else if a == p {
                    assert(m@[b] == before[b - 1]);
                    if b - 1 > p {
                        crate::text::lemma_seq_less_trans(method@, before[p as int].0@, before[b - 1].0@);
                    }
                } else {
                    assert(m@[a] == before[a - 1] && m@[b] == before[b - 1]);
                }
            }
        }
    }
}

/// Coverage counts over the endpoints of a project.
pub fn api_coverage(endpoints: &Vec<ApiEndpoint>) -> (res: ApiCoverage)
    ensures
        res.total == endpoints@.len(),
        method_counts(endpoints@, res.by_method@),
        res.documented == count_where(endpoints@, |e: ApiEndpoint| e.responses@.len() > 0),
        res.request_schema == count_where(endpoints@, |e: ApiEndpoint| e.request_schema is Some),
        res.response_schema == count_where(endpoints@, |e: ApiEndpoint| has_response_schema(e)),
        res.tested == count_where(endpoints@, |e: ApiEndpoint| e.has_tests),
        res.security_findings == count_where(endpoints@, |e: ApiEndpoint| e.security_finding_ids@.len() > 0),
        res.untested == count_where(endpoints@, |e: ApiEndpoint| !e.has_tests),
        res.tested + res.untested == res.total,
{
    let mut by_method: Vec<(String, usize)> = Vec::new();
    let mut documented: usize = 0;
    let mut request_schema: usize = 0;
    let mut response_schema: usize = 0;
    let mut tested: usize = 0;
    let mut security: usize = 0;
    let mut untested: usize = 0;
    let mut i: usize = 0;
    while i < endpoints.len()
        invariant
            i <= endpoints@.len(),
            method_counts(endpoints@.subrange(0, i as int), by_method@),
            forall|k: int| 0 <= k < by_method@.len() ==> by_method@[k].1 <= i,
            documented == count_where(endpoints@.subrange(0, i as int), |e: ApiEndpoint| e.responses@.len() > 0),
            request_schema == count_where(endpoints@.subrange(0, i as int), |e: ApiEndpoint| e.request_schema is Some),
            response_schema == count_where(endpoints@.subrange(0, i as int), |e: ApiEndpoint| has_response_schema(e)),
            tested == count_where(endpoints@.subrange(0, i as int), |e: ApiEndpoint| e.has_tests),
            security == count_where(endpoints@.subrange(0, i as int), |e: ApiEndpoint| e.security_finding_ids@.len() > 0),
            untested == count_where(endpoints@.subrange(0, i as int), |e: ApiEndpoint| !e.has_tests),
            documented <= i && request_schema <= i && response_schema <= i && tested <= i && security <= i && untested <= i,
        decreases endpoints.len() - i,
    {
        let e = &endpoints[i];
        let ghost pre = endpoints@.subrange(0, i + 1);
        proof {
            assert(pre.drop_last() =~= endpoints@.subrange(0, i as int));
            assert(pre =~= endpoints@.subrange(0, i as int).push(endpoints@[i as int]));
        }
        count_method(&mut by_method, e.method.as_str(), Ghost(endpoints@.subrange(0, i as int)), Ghost(endpoints@[i as int]));
        if e.responses.len() > 0 {
            documented = documented + 1;
        }
        if e.request_schema.is_some() {
            request_schema = request_schema + 1;
        }
        if response_schema_known(e) {
            response_schema = response_schema + 1;
        }
        if e.has_tests {
            tested = tested + 1;
        } else {
            untested = untested + 1;
        }
        if e.security_finding_ids.len() > 0 {
            security = security + 1;
        }
        i = i + 1;
    }
    proof {
        assert(endpoints@.subrange(0, endpoints@.len() as int) =~= endpoints@);
        lemma_tested_split(endpoints@);
    }
    ApiCoverage {
        total: endpoints.len(),
        by_method,
        documented,
        request_schema,
        response_schema,
        tested,
        security_findings: security,
        untested,
    }
}

} // verus!
