//! Framework adapters: routes, pages, providers, inheritance, tables, templates, commands
//! and message handlers, recognised in source text and tied to unambiguous handlers.
use vstd::prelude::*;

use crate::findings::SourceText;
use crate::model::{CodeEdge, CodeNode, NodeKind, ProjectFile, RelationKind, SourceScope, str_equal};
use crate::patterns::{regex_captures, RegexCapture};
use crate::text::{
    chars_of, concat_str, contains, ends_with, seq_contains, seq_ends_with, slice_chars, spec_decimal,
    spec_replace_char, spec_to_lowercase, starts_with, string_of, to_lowercase, views,
};

verus! {

/// Nodes and edges found by the framework adapters.
#[derive(Clone, Debug)]
pub struct FrameworkAnalysis {
    pub nodes: Vec<CodeNode>,
    pub edges: Vec<CodeEdge>,
}

impl FrameworkAnalysis {
    pub fn new() -> (res: FrameworkAnalysis)
        ensures
            res.nodes@.len() == 0,
            res.edges@.len() == 0,
    {
        FrameworkAnalysis { nodes: Vec::new(), edges: Vec::new() }
    }
}

/// The id of a node the adapters create: its kind in lowercase, file, line and name.
pub open spec fn virtual_id(kind: NodeKind, path: Seq<char>, line: nat, name: Seq<char>) -> Seq<char> {
    spec_to_lowercase(kind.spec_name()) + ":"@ + path + ":"@ + spec_decimal(line) + ":"@ + name
}

/// A node found by an adapter in a file, at one line.
pub fn virtual_node(file: &ProjectFile, kind: NodeKind, name: String, line: usize) -> (res: CodeNode)
    ensures
        res.id@ == virtual_id(kind, file.path@, line as nat, name@),
        res.kind == kind,
        res.name == name,
        res.path == Some(file.path),
        res.language == Some(file.language),
        res.start_line == Some(line),
        res.end_line == Some(line),
        res.owner is None,
        res.source_scope == file.source_scope,
{
    let mut id = to_lowercase(kind.as_str());
    id.append(":");
    id.append(file.path.as_str());
    id.append(":");
    id.append(string_of(&crate::text::decimal(line)).as_str());
    id.append(":");
    id.append(name.as_str());
    CodeNode {
        id,
        kind,
        name,
        path: Some(file.path.clone()),
        language: Some(file.language),
        start_line: Some(line),
        end_line: Some(line),
        owner: None,
        source_scope: file.source_scope,
    }
}

/// A symbol of the file with the name.
pub open spec fn handler_in(n: CodeNode, file: Seq<char>, name: Seq<char>) -> bool {
    (n.path matches Some(p) && p@ == file) && n.name@ == name
}

/// Number of symbols among the first `k` satisfying `handler_in`.
pub open spec fn handler_count(symbols: Seq<CodeNode>, k: int, file: Seq<char>, name: Seq<char>) -> nat
    decreases k,
{
    if k <= 0 {
        0
    } else {
        handler_count(symbols, k - 1, file, name) + if handler_in(symbols[k - 1], file, name) { 1nat } else { 0nat }
    }
}

/// The position of the only symbol of the file with the name, if there is exactly one.
pub fn find_handler(symbols: &Vec<CodeNode>, file: &str, name: &str) -> (res: Option<usize>)
    ensures
        match res {
            Some(i) => i < symbols@.len() && handler_in(symbols@[i as int], file@, name@)
                && handler_count(symbols@, symbols@.len() as int, file@, name@) == 1,
            None => handler_count(symbols@, symbols@.len() as int, file@, name@) != 1,
        },
{
    let mut count: usize = 0;
    let mut found: Option<usize> = None;
    let mut i: usize = 0;
    while i < symbols.len()
        invariant
            i <= symbols@.len(),
            count == handler_count(symbols@, i as int, file@, name@),
            count <= i,
            found matches Some(f) ==> f < i && handler_in(symbols@[f as int], file@, name@),
            count > 0 ==> found is Some,
        decreases symbols.len() - i,
    {
        let n = &symbols[i];
        let hit = match &n.path {
            Some(p) => str_equal(p.as_str(), file),
            None => false,
        } && str_equal(n.name.as_str(), name);
        if hit {
            count = count + 1;
            if found.is_none() {
                found = Some(i);
            }
        }
        i = i + 1;
    }
    if count == 1 { found } else { None }
}

/// Number of `\n` bytes among the first `n` bytes.
pub open spec fn newlines_before(bytes: Seq<u8>, n: int) -> nat
    decreases n,
{
    if n <= 0 || n > bytes.len() {
        0
    } else {
        newlines_before(bytes, n - 1) + if bytes[n - 1] == 10u8 { 1nat } else { 0nat }
    }
}

/// The one-based line holding the byte at offset `byte` of `source`.
pub fn line_at(source: &str, byte: usize) -> (res: usize)
    requires
        byte <= vstd::utf8::encode_utf8(source@).len(),
    ensures
        res == if newlines_before(vstd::utf8::encode_utf8(source@), byte as int) + 1 > usize::MAX {
            usize::MAX as int
        } else {
            newlines_before(vstd::utf8::encode_utf8(source@), byte as int) + 1 as int
        },
{
    let bytes = source.as_bytes();
    let mut count: usize = 0;
    let mut i: usize = 0;
    while i < byte
        invariant
            i <= byte <= bytes@.len(),
            bytes@ == vstd::utf8::encode_utf8(source@),
            count == newlines_before(bytes@, i as int),
            count <= i,
        decreases byte - i,
    {
        if bytes[i] == 10u8 {
            count = count + 1;
        }
        i = i + 1;
    }
    if count == usize::MAX { usize::MAX } else { count + 1 }
}

/// The one-based line holding the byte at offset `byte` of `source`, as `line_at` gives it.
pub open spec fn spec_line_at(source: Seq<char>, byte: int) -> int {
    if newlines_before(vstd::utf8::encode_utf8(source), byte) + 1 > usize::MAX {
        usize::MAX as int
    } else {
        newlines_before(vstd::utf8::encode_utf8(source), byte) + 1 as int
    }
}

/// The ids of the nodes of the kind that the matches name by their first group, each at
/// the line where its match starts, in order.
pub open spec fn capture_node_ids(kind: NodeKind, path: Seq<char>, source: Seq<char>, cs: Seq<crate::patterns::CaptureView>) -> Seq<Seq<char>>
    decreases cs.len(),
{
    if cs.len() == 0 {
        Seq::empty()
    } else {
        let r = capture_node_ids(kind, path, source, cs.drop_last());
        let c = cs.last();
        if c.3.len() > 0 && c.3[0] is Some {
            r.push(virtual_id(kind, path, spec_line_at(source, c.0) as nat, c.3[0]->0))
        } else {
            r
        }
    }
}

/// The ids of the nodes a pattern's matches name: none when the pattern does not compile.
pub open spec fn pattern_node_ids(kind: NodeKind, path: Seq<char>, source: Seq<char>, pattern: Seq<char>) -> Seq<Seq<char>> {
    match crate::patterns::spec_regex_captures(pattern, source) {
        Some(cs) => capture_node_ids(kind, path, source, cs),
        None => Seq::empty(),
    }
}

/// The ids of the nodes appended after the first `n`.
pub open spec fn ids_after(nodes: Seq<CodeNode>, n: int) -> Seq<Seq<char>> {
    nodes.subrange(n, nodes.len() as int).map_values(|x: CodeNode| x.id@)
}

fn group(c: &RegexCapture, k: usize) -> (res: Option<String>)
    ensures
        res == if k < c.groups@.len() { c.groups@[k as int] } else { None },
{
    if k < c.groups.len() {
        match &c.groups[k] {
            Some(s) => Some(s.clone()),
            None => None,
        }
    } else {
        None
    }
}

fn cat3(a: &str, b: &str, c: &str) -> (res: String)
    ensures
        res@ == a@ + b@ + c@,
{
    let ab = concat_str(a, b);
    concat_str(ab.as_str(), c)
}

// ---------------------------------------------------------------------------
// Next.js
// ---------------------------------------------------------------------------

fn strip_prefix_str(s: &Vec<char>, prefix: &str) -> (res: Option<Vec<char>>)
    ensures
        match res {
            Some(r) => crate::text::strip_prefix(s@, prefix@) == Some(r@),
            None => crate::text::strip_prefix(s@, prefix@) is None,
        },
{
    crate::text::strip_prefix_exec(s, prefix)
}

/// `s` without trailing repetitions of `suffix`.
pub open spec fn spec_trim_end_matches(s: Seq<char>, suffix: Seq<char>) -> Seq<char>
    decreases s.len(),
{
    if suffix.len() > 0 && seq_ends_with(s, suffix) {
        spec_trim_end_matches(s.subrange(0, s.len() - suffix.len()), suffix)
    } else {
        s
    }
}

/// `s` without leading repetitions of `prefix`.
pub open spec fn spec_trim_start_matches(s: Seq<char>, prefix: Seq<char>) -> Seq<char>
    decreases s.len(),
{
    if prefix.len() > 0 && crate::text::seq_starts_with(s, prefix) {
        spec_trim_start_matches(s.subrange(prefix.len() as int, s.len() as int), prefix)
    } else {
        s
    }
}

/// `s` without the occurrences of `c`.
pub open spec fn spec_remove_char(s: Seq<char>, c: char) -> Seq<char>
    decreases s.len(),
{
    if s.len() == 0 {
        s
    } else if s.last() == c {
        spec_remove_char(s.drop_last(), c)
    } else {
        spec_remove_char(s.drop_last(), c).push(s.last())
    }
}

/// `c` in ASCII uppercase.
pub open spec fn ascii_upper(c: char) -> char {
    if 97 <= (c as u32) && (c as u32) <= 122 {
        (((c as u32) - 32) as u8) as char
    } else {
        c
    }
}

/// `s` without trailing repetitions of `suffix`, as `str::trim_end_matches` gives it.
fn trim_end_matches(s: &Vec<char>, suffix: &str) -> (res: Vec<char>)
    ensures
        res@ == spec_trim_end_matches(s@, suffix@),
{
    let p = chars_of(suffix);
    let mut out = slice_chars(s, 0, s.len());
    assert(s@.subrange(0, s@.len() as int) =~= s@);
    if p.len() == 0 {
        return out;
    }
    while ends_with(&out, &p)
        invariant
            p@.len() > 0,
            p@ == suffix@,
            spec_trim_end_matches(out@, p@) == spec_trim_end_matches(s@, suffix@),
        decreases out@.len(),
    {
        let n = out.len() - p.len();
        out = slice_chars(&out, 0, n);
    }
    out
}

/// `s` without leading repetitions of `prefix`, as `str::trim_start_matches` gives it.
fn trim_start_matches(s: &Vec<char>, prefix: &str) -> (res: Vec<char>)
    ensures
        res@ == spec_trim_start_matches(s@, prefix@),
{
    let p = chars_of(prefix);
    let mut out = slice_chars(s, 0, s.len());
    assert(s@.subrange(0, s@.len() as int) =~= s@);
    if p.len() == 0 {
        return out;
    }
    while starts_with(&out, &p)
        invariant
            p@.len() > 0,
            p@ == prefix@,
            spec_trim_start_matches(out@, p@) == spec_trim_start_matches(s@, prefix@),
        decreases out@.len(),
    {
        let n = out.len();
        out = slice_chars(&out, p.len(), n);
    }
    out
}

/// `s` without `/` at either end.
pub open spec fn spec_trim_slashes(s: Seq<char>) -> Seq<char> {
    spec_trim_end_matches(spec_trim_start_matches(s, "/"@), "/"@)
}

/// A handler of the file counts towards the handlers with the name.
proof fn lemma_handler_counted(s: Seq<CodeNode>, k: int, file: Seq<char>, name: Seq<char>, i: int)
    requires
        0 <= i < k <= s.len(),
        handler_in(s[i], file, name),
    ensures
        handler_count(s, k, file, name) >= 1,
    decreases k,
{
    if i < k - 1 {
        lemma_handler_counted(s, k - 1, file, name, i);
    }
}

/// When one symbol of the file has the name, any two such are the same.
proof fn lemma_single_handler(s: Seq<CodeNode>, k: int, file: Seq<char>, name: Seq<char>, i: int, j: int)
    requires
        handler_count(s, k, file, name) == 1,
        0 <= i < k <= s.len(),
        0 <= j < k,
        handler_in(s[i], file, name),
        handler_in(s[j], file, name),
    ensures
        i == j,
    decreases k,
{
    if i != j {
        if i == k - 1 || j == k - 1 {
            let other = if i == k - 1 { j } else { i };
            lemma_handler_counted(s, k - 1, file, name, other);
        } else {
            if handler_in(s[k - 1], file, name) {
                lemma_handler_counted(s, k - 1, file, name, i);
            } else {
                lemma_single_handler(s, k - 1, file, name, i, j);
            }
        }
    }
}

/// The only symbol of the file with the name, when there is exactly one.
pub open spec fn the_handler(s: Seq<CodeNode>, file: Seq<char>, name: Seq<char>) -> int {
    choose|i: int| 0 <= i < s.len() && handler_in(s[i], file, name)
}

/// The part of a Next.js file path under `app/`, if it lies under one.
pub open spec fn next_rest(path: Seq<char>) -> Option<Seq<char>> {
    let p = spec_replace_char(path, '\\', '/');
    match crate::text::strip_prefix(p, "app/"@) {
        Some(r) => Some(r),
        None => match crate::text::first_occurrence_from(p, "/app/"@, 0) {
            Some(i) => Some(p.subrange(i + 5, p.len() as int)),
            None => None,
        },
    }
}

/// The kind and route a Next.js file declares: a page (`page.tsx`, `[x]` read as `:x`) or a
/// route handler (`route.ts`, under `/api/`).
pub open spec fn next_route(path: Seq<char>) -> Option<(NodeKind, Seq<char>)> {
    match next_rest(path) {
        None => None,
        Some(rest) => if seq_ends_with(rest, "/page.tsx"@) || rest == "page.tsx"@ {
            let inner = spec_trim_slashes(spec_trim_end_matches(rest, "page.tsx"@));
            Some((NodeKind::Page, seq!['/'] + spec_remove_char(spec_replace_char(inner, '[', ':'), ']')))
        } else if seq_ends_with(rest, "/route.ts"@) {
            let inner = spec_trim_start_matches(spec_trim_slashes(spec_trim_end_matches(rest, "route.ts"@)), "api/"@);
            Some((NodeKind::ApiEndpoint, "/api/"@ + inner))
        } else {
            None
        },
    }
}

/// The name of a route's node: the route without trailing `/` (`/` itself kept).
pub open spec fn next_name(route: Seq<char>) -> Seq<char> {
    if route == "/"@ { "/"@ } else { spec_trim_end_matches(route, "/"@) }
}

/// The HTTP methods a route handler may export.
pub open spec fn next_methods() -> Seq<Seq<char>> {
    seq!["GET"@, "POST"@, "PUT"@, "PATCH"@, "DELETE"@, "HEAD"@, "OPTIONS"@]
}

/// The ids of the endpoints bound to the first `m` methods the file's symbols export (each
/// when exactly one symbol of the file has its name), at the handler's line (1 when unknown).
pub open spec fn next_method_ids(s: Seq<CodeNode>, path: Seq<char>, name: Seq<char>, m: int) -> Seq<Seq<char>>
    decreases m,
{
    if m <= 0 {
        Seq::empty()
    } else {
        let r = next_method_ids(s, path, name, m - 1);
        let method = next_methods()[m - 1];
        if handler_count(s, s.len() as int, path, method) == 1 {
            let h = s[the_handler(s, path, method)];
            let line: nat = match h.start_line { Some(l) => l as nat, None => 1 };
            r.push(virtual_id(NodeKind::ApiEndpoint, path, line, method + " "@ + name))
        } else {
            r
        }
    }
}

/// The ends of the edges a Next.js route handler adds for its first `m` methods: each method
/// with one handler binds its endpoint, then the route, to that handler.
pub open spec fn next_method_edges(s: Seq<CodeNode>, path: Seq<char>, name: Seq<char>, m: int) -> Seq<(Seq<char>, Seq<char>)>
    decreases m,
{
    if m <= 0 {
        Seq::empty()
    } else {
        let r = next_method_edges(s, path, name, m - 1);
        let method = next_methods()[m - 1];
        if handler_count(s, s.len() as int, path, method) == 1 {
            let h = s[the_handler(s, path, method)];
            let line: nat = match h.start_line { Some(l) => l as nat, None => 1 };
            r.push((virtual_id(NodeKind::ApiEndpoint, path, line, method + " "@ + name), h.id@)).push(
                (virtual_id(NodeKind::ApiEndpoint, path, 1, name), h.id@),
            )
        } else {
            r
        }
    }
}

/// The ends of the edges a Next.js file adds: those of a route handler's methods.
pub open spec fn next_edges(s: Seq<CodeNode>, path: Seq<char>) -> Seq<(Seq<char>, Seq<char>)> {
    match next_route(path) {
        Some(kr) => if kr.0 == NodeKind::ApiEndpoint { next_method_edges(s, path, next_name(kr.1), 7) } else { Seq::empty() },
        None => Seq::empty(),
    }
}

/// The ids of the nodes a Next.js file adds: the endpoints of its handler's methods, then
/// its page or route.
pub open spec fn next_ids(s: Seq<CodeNode>, path: Seq<char>) -> Seq<Seq<char>> {
    match next_route(path) {
        None => Seq::empty(),
        Some(kr) => {
            let name = next_name(kr.1);
            (if kr.0 == NodeKind::ApiEndpoint { next_method_ids(s, path, name, 7) } else { Seq::empty() }).push(
                virtual_id(kr.0, path, 1, name),
            )
        },
    }
}

fn trim_slashes(s: &Vec<char>) -> (res: Vec<char>)
    ensures
        res@ == spec_trim_slashes(s@),
{
    let a = trim_start_matches(s, "/");
    trim_end_matches(&a, "/")
}

fn remove_char(s: &Vec<char>, c: char) -> (res: Vec<char>)
    ensures
        res@ == spec_remove_char(s@, c),
{
    let mut out: Vec<char> = Vec::new();
    let mut i: usize = 0;
    while i < s.len()
        invariant
            i <= s@.len(),
            out@ == spec_remove_char(s@.subrange(0, i as int), c),
        decreases s.len() - i,
    {
        assert(s@.subrange(0, i + 1).drop_last() =~= s@.subrange(0, i as int));
        if s[i] != c {
            out.push(s[i]);
        }
        i = i + 1;
    }
    assert(s@.subrange(0, s@.len() as int) =~= s@);
    out
}

fn text_of(s: &Vec<char>) -> (res: String)
    ensures
        res@ == s@,
{
    string_of(s)
}

/// Next.js pages (`app/**/page.tsx`) and route handlers (`app/**/route.ts`), each exported
/// HTTP method bound to its handler.
pub fn analyze_next(file: &ProjectFile, symbols: &Vec<CodeNode>, out: &mut FrameworkAnalysis)
    ensures
        final(out).nodes@.len() >= old(out).nodes@.len(),
        forall|k: int| old(out).nodes@.len() <= k < final(out).nodes@.len() ==> (#[trigger] final(out).nodes@[k]).path
            == Some(file.path),
        final(out).nodes@.subrange(0, old(out).nodes@.len() as int) == old(out).nodes@,
        ids_after(final(out).nodes@, old(out).nodes@.len() as int) == next_ids(symbols@, file.path@),
        final(out).edges@.len() >= old(out).edges@.len(),
        final(out).edges@.subrange(0, old(out).edges@.len() as int) == old(out).edges@,
        edge_ends_after(final(out).edges@, old(out).edges@.len() as int) == next_edges(symbols@, file.path@),
{
    let ghost nodes0 = out.nodes@;
    let ghost edges0 = out.edges@;
    assert(edge_ends_after(out.edges@, edges0.len() as int) =~= Seq::<(Seq<char>, Seq<char>)>::empty());
    assert(out.nodes@.subrange(0, nodes0.len() as int) =~= nodes0);
    assert(out.edges@.subrange(0, edges0.len() as int) =~= edges0);
    assert(ids_after(out.nodes@, nodes0.len() as int) =~= Seq::<Seq<char>>::empty());
    let path = crate::text::replace_char(&chars_of(file.path.as_str()), '\\', '/');
    let pn = path.len();
    let rest = match strip_prefix_str(&path, "app/") {
        Some(r) => r,
        None => match crate::text::find_str(&path, &chars_of("/app/")) {
            Some(p) => {
                proof {
                    reveal_strlit("/app/");
                }
                slice_chars(&path, p + 5, pn)
            },
            None => {
                return;
            },
        },
    };
    assert(next_rest(file.path@) == Some(rest@));
    let rest_text = text_of(&rest);
    let is_page = crate::text::ends_with(&rest, &chars_of("/page.tsx")) || str_equal(rest_text.as_str(), "page.tsx");
    let (kind, route) = if is_page {
        let inner = trim_slashes(&trim_end_matches(&rest, "page.tsx"));
        let bracketed = crate::text::replace_char(&inner, '[', ':');
        let cleaned = remove_char(&bracketed, ']');
        let mut r: Vec<char> = Vec::new();
        r.push('/');
        crate::text::append_chars(&mut r, &cleaned);
        (NodeKind::Page, r)
    } else if crate::text::ends_with(&rest, &chars_of("/route.ts")) {
        let inner = trim_start_matches(&trim_slashes(&trim_end_matches(&rest, "route.ts")), "api/");
        let mut r = chars_of("/api/");
        crate::text::append_chars(&mut r, &inner);
        (NodeKind::ApiEndpoint, r)
    } else {
        return;
    };
    assert(next_route(file.path@) == Some((kind, route@)));
    let route_text = text_of(&route);
    let name = if str_equal(route_text.as_str(), "/") {
        String::from_str("/")
    } else {
        text_of(&trim_end_matches(&route, "/"))
    };
    assert(name@ == next_name(route@));
    let node = virtual_node(file, kind, name, 1);
    let ghost start_nodes = out.nodes@.len();
    if kind == NodeKind::ApiEndpoint {
        let methods: Vec<&str> = vec!["GET", "POST", "PUT", "PATCH", "DELETE", "HEAD", "OPTIONS"];
        assert(methods@.map_values(|t: &str| t@) =~= next_methods());
        let mut m: usize = 0;
        while m < methods.len()
            invariant
                m <= methods@.len(),
                methods@.len() == 7,
                methods@.map_values(|t: &str| t@) == next_methods(),
                out.nodes@.len() >= start_nodes,
                start_nodes == nodes0.len(),
                out.nodes@.subrange(0, start_nodes as int) == nodes0,
                out.edges@.len() >= edges0.len(),
                out.edges@.subrange(0, edges0.len() as int) == edges0,
                ids_after(out.nodes@, start_nodes as int) == next_method_ids(symbols@, file.path@, node.name@, m as int),
                edge_ends_after(out.edges@, edges0.len() as int) == next_method_edges(symbols@, file.path@, node.name@, m as int),
                node.id@ == virtual_id(NodeKind::ApiEndpoint, file.path@, 1, node.name@),
                node.path == Some(file.path),
                forall|k: int| start_nodes <= k < out.nodes@.len() ==> (#[trigger] out.nodes@[k]).path == Some(file.path),
            decreases methods.len() - m,
        {
            assert(methods@[m as int]@ == next_methods()[m as int]);
            let ghost nb = out.nodes@;
            let ghost eb = out.edges@;
            match find_handler(symbols, file.path.as_str(), methods[m]) {
                Some(h) => {
                    proof {
                        let th = the_handler(symbols@, file.path@, next_methods()[m as int]);
                        lemma_single_handler(symbols@, symbols@.len() as int, file.path@, next_methods()[m as int], th, h as int);
                    }
                    let handler = &symbols[h];
                    let line = match handler.start_line {
                        Some(l) => l,
                        None => 1,
                    };
                    let endpoint = virtual_node(file, NodeKind::ApiEndpoint, cat3(methods[m], " ", node.name.as_str()), line);
                    out.edges.push(CodeEdge::new(endpoint.id.clone(), handler.id.clone(), RelationKind::HandledBy));
                    out.nodes.push(endpoint);
                    out.edges.push(CodeEdge::new(node.id.clone(), handler.id.clone(), RelationKind::HandledBy));
                    assert(edge_ends_after(out.edges@, edges0.len() as int) =~= edge_ends_after(eb, edges0.len() as int).push(
                        (endpoint.id@, handler.id@),
                    ).push((node.id@, handler.id@)));
                    assert(ids_after(out.nodes@, start_nodes as int) =~= ids_after(nb, start_nodes as int).push(out.nodes@.last().id@));
                    assert(out.nodes@.subrange(0, start_nodes as int) =~= nb.subrange(0, start_nodes as int));
                    assert(out.edges@.subrange(0, edges0.len() as int) =~= eb.subrange(0, edges0.len() as int));
                },
                None => {},
            }
            m = m + 1;
        }
    }
    let ghost nb = out.nodes@;
    out.nodes.push(node);
    assert(ids_after(out.nodes@, nodes0.len() as int) =~= ids_after(nb, nodes0.len() as int).push(node.id@));
    assert(edge_ends_after(out.edges@, edges0.len() as int) == next_edges(symbols@, file.path@));
    assert(out.nodes@.subrange(0, nodes0.len() as int) =~= nb.subrange(0, nodes0.len() as int));
}

// ---------------------------------------------------------------------------
// Routes, Flutter, inheritance, SQL
// ---------------------------------------------------------------------------

/// The part of a handler reference after its last `:` or `@`.
fn handler_name(value: &str) -> (res: String)
    ensures
        res@ == crate::line_analysis::after_last(value@, seq![':', '@']),
{
    let c = chars_of(value);
    let ghost seps = seq![':', '@'];
    let mut start: usize = 0;
    let mut i: usize = 0;
    assert(c@.subrange(0, 0) =~= Seq::<char>::empty());
    while i < c.len()
        invariant
            i <= c@.len(),
            start <= i,
            c@ == value@,
            seps == seq![':', '@'],
            c@.subrange(start as int, i as int) == crate::line_analysis::after_last(c@.subrange(0, i as int), seps),
        decreases c.len() - i,
    {
        let ghost pre = c@.subrange(0, i + 1);
        assert(pre.drop_last() =~= c@.subrange(0, i as int));
        assert(pre.last() == c@[i as int]);
        proof {
            crate::line_analysis::lemma_pair_contains(':', '@', c@[i as int]);
        }
        if c[i] == ':' || c[i] == '@' {
            start = i + 1;
            assert(c@.subrange(start as int, i + 1) =~= Seq::<char>::empty());
        } else {
            assert(c@.subrange(start as int, i + 1) =~= c@.subrange(start as int, i as int).push(c@[i as int]));
        }
        i = i + 1;
    }
    assert(c@.subrange(0, c@.len() as int) =~= c@);
    string_of(&slice_chars(&c, start, c.len()))
}

/// `s` with its ASCII lowercase letters in uppercase.
fn uppercase(s: &str) -> (res: String)
    ensures
        res@ == s@.map_values(|ch: char| ascii_upper(ch)),
{
    let c = chars_of(s);
    let mut out: Vec<char> = Vec::new();
    let mut i: usize = 0;
    while i < c.len()
        invariant
            i <= c@.len(),
            c@ == s@,
            out@ == c@.subrange(0, i as int).map_values(|ch: char| ascii_upper(ch)),
        decreases c.len() - i,
    {
        let u = c[i] as u32;
        if 97 <= u && u <= 122 {
            out.push(((u - 32) as u8) as char);
        } else {
            out.push(c[i]);
        }
        assert(c@.subrange(0, i + 1).map_values(|ch: char| ascii_upper(ch)) =~= c@.subrange(0, i as int).map_values(
            |ch: char| ascii_upper(ch),
        ).push(ascii_upper(c@[i as int])));
        i = i + 1;
    }
    assert(c@.subrange(0, c@.len() as int) =~= c@);
    string_of(&out)
}

/// The texts of the groups that took part, in order.
pub open spec fn present_groups(gs: Seq<Option<Seq<char>>>) -> Seq<Seq<char>>
    decreases gs.len(),
{
    if gs.len() == 0 {
        Seq::empty()
    } else {
        match gs.last() {
            Some(v) => present_groups(gs.drop_last()).push(v),
            None => present_groups(gs.drop_last()),
        }
    }
}

/// The name of the endpoint a match of the `p`-th route pattern declares, from the texts of
/// its groups: `.route(path, method(handler))`, `Route::method(path, handler)` or
/// `#[Route(path)]` (any method).
pub open spec fn http_route_name(p: int, vals: Seq<Seq<char>>) -> Option<Seq<char>> {
    if vals.len() >= 1 && (p == 2 || vals.len() >= 2) {
        let method = if p == 0 {
            if vals.len() > 1 { vals[1] } else { "ANY"@ }
        } else if p == 1 {
            vals[0]
        } else {
            "ANY"@
        };
        let route = if p == 1 { vals[1] } else { vals[0] };
        Some(method.map_values(|ch: char| ascii_upper(ch)) + " "@ + route)
    } else {
        None
    }
}

/// The ids of the endpoints the matches of the `p`-th route pattern declare, in order.
pub open spec fn http_capture_ids(path: Seq<char>, source: Seq<char>, p: int, cs: Seq<crate::patterns::CaptureView>) -> Seq<Seq<char>>
    decreases cs.len(),
{
    if cs.len() == 0 {
        Seq::empty()
    } else {
        let r = http_capture_ids(path, source, p, cs.drop_last());
        match http_route_name(p, present_groups(cs.last().3)) {
            Some(n) => r.push(virtual_id(NodeKind::ApiEndpoint, path, spec_line_at(source, cs.last().0) as nat, n)),
            None => r,
        }
    }
}

/// The handler a match of the `p`-th route pattern names, after its last `:` or `@`; the
/// attribute pattern names none.
pub open spec fn http_handler_name(p: int, vals: Seq<Seq<char>>) -> Option<Seq<char>> {
    if p < 2 && vals.len() > 2 {
        Some(crate::line_analysis::after_last(vals[2], seq![':', '@']))
    } else {
        None
    }
}

/// The ends of the edges from the endpoints the matches of the `p`-th route pattern declare
/// to their handlers, where the file has exactly one handler of that name, in order.
pub open spec fn http_capture_edges(s: Seq<CodeNode>, path: Seq<char>, source: Seq<char>, p: int, cs: Seq<crate::patterns::CaptureView>) -> Seq<(Seq<char>, Seq<char>)>
    decreases cs.len(),
{
    if cs.len() == 0 {
        Seq::empty()
    } else {
        let r = http_capture_edges(s, path, source, p, cs.drop_last());
        let vals = present_groups(cs.last().3);
        match (http_route_name(p, vals), http_handler_name(p, vals)) {
            (Some(n), Some(h)) => if handler_count(s, s.len() as int, path, h) == 1 {
                r.push((virtual_id(NodeKind::ApiEndpoint, path, spec_line_at(source, cs.last().0) as nat, n), s[the_handler(s, path, h)].id@))
            } else {
                r
            },
            _ => r,
        }
    }
}

/// The ends of the handler edges the first `n` route patterns give, pattern after pattern.
pub open spec fn http_route_edges(s: Seq<CodeNode>, path: Seq<char>, source: Seq<char>, n: int) -> Seq<(Seq<char>, Seq<char>)>
    decreases n,
{
    if n <= 0 {
        Seq::empty()
    } else {
        http_route_edges(s, path, source, n - 1) + match crate::patterns::spec_regex_captures(http_patterns()[n - 1], source) {
            Some(cs) => http_capture_edges(s, path, source, n - 1, cs),
            None => Seq::empty(),
        }
    }
}

/// The three route patterns.
pub open spec fn http_patterns() -> Seq<Seq<char>> {
    seq![
        r#"\.route\(\s*\"([^\"]+)\"\s*,\s*(get|post|put|patch|delete)\((\w+)\)"#@,
        r#"Route::(get|post|put|patch|delete)\(\s*['\"]([^'\"]+)['\"]\s*,\s*\[?([\w:]+)"#@,
        r#"#\[Route\(\s*['\"]([^'\"]+)['\"]"#@,
    ]
}

/// The ids of the endpoints the first `n` route patterns declare, pattern after pattern.
pub open spec fn http_route_ids(path: Seq<char>, source: Seq<char>, n: int) -> Seq<Seq<char>>
    decreases n,
{
    if n <= 0 {
        Seq::empty()
    } else {
        http_route_ids(path, source, n - 1) + match crate::patterns::spec_regex_captures(http_patterns()[n - 1], source) {
            Some(cs) => http_capture_ids(path, source, n - 1, cs),
            None => Seq::empty(),
        }
    }
}

/// HTTP routes declared with axum-style `.route(..)`, Laravel `Route::get(..)` or
/// `#[Route(..)]` attributes.
pub fn analyze_http_routes(file: &ProjectFile, source: &str, symbols: &Vec<CodeNode>, out: &mut FrameworkAnalysis)
    ensures
        forall|k: int| old(out).nodes@.len() <= k < final(out).nodes@.len() ==> (#[trigger] final(out).nodes@[k]).path
            == Some(file.path),
        final(out).nodes@.len() >= old(out).nodes@.len(),
        final(out).nodes@.subrange(0, old(out).nodes@.len() as int) == old(out).nodes@,
        ids_after(final(out).nodes@, old(out).nodes@.len() as int) == http_route_ids(file.path@, source@, 3),
        final(out).edges@.len() >= old(out).edges@.len(),
        final(out).edges@.subrange(0, old(out).edges@.len() as int) == old(out).edges@,
        edge_ends_after(final(out).edges@, old(out).edges@.len() as int) == http_route_edges(symbols@, file.path@, source@, 3),
{
    let patterns: Vec<&str> = vec![
        r#"\.route\(\s*\"([^\"]+)\"\s*,\s*(get|post|put|patch|delete)\((\w+)\)"#,
        r#"Route::(get|post|put|patch|delete)\(\s*['\"]([^'\"]+)['\"]\s*,\s*\[?([\w:]+)"#,
        r#"#\[Route\(\s*['\"]([^'\"]+)['\"]"#,
    ];
    assert(patterns@.map_values(|t: &str| t@) =~= http_patterns());
    let ghost start_nodes = out.nodes@.len();
    let ghost nodes0 = out.nodes@;
    let ghost start_edges = out.edges@.len();
    let ghost edges0 = out.edges@;
    assert(out.nodes@.subrange(0, start_nodes as int) =~= nodes0);
    assert(out.edges@.subrange(0, start_edges as int) =~= edges0);
    assert(ids_after(out.nodes@, start_nodes as int) =~= Seq::<Seq<char>>::empty());
    assert(edge_ends_after(out.edges@, start_edges as int) =~= Seq::<(Seq<char>, Seq<char>)>::empty());
    let mut p: usize = 0;
    while p < patterns.len()
        invariant
            p <= patterns@.len(),
            patterns@.len() == 3,
            patterns@.map_values(|t: &str| t@) == http_patterns(),
            out.nodes@.len() >= start_nodes,
            out.edges@.len() >= start_edges,
            out.nodes@.subrange(0, start_nodes as int) == nodes0,
            out.edges@.subrange(0, start_edges as int) == edges0,
            ids_after(out.nodes@, start_nodes as int) == http_route_ids(file.path@, source@, p as int),
            edge_ends_after(out.edges@, start_edges as int) == http_route_edges(symbols@, file.path@, source@, p as int),
            forall|k: int| start_nodes <= k < out.nodes@.len() ==> (#[trigger] out.nodes@[k]).path == Some(file.path),
        decreases patterns.len() - p,
    {
        let ghost base = ids_after(out.nodes@, start_nodes as int);
        let ghost ebase = edge_ends_after(out.edges@, start_edges as int);
        assert(patterns@[p as int]@ == http_patterns()[p as int]);
        match regex_captures(patterns[p], source) {
            Some(matches) => {
                let ghost cv = matches@.map_values(|x: RegexCapture| crate::patterns::capture_view(x));
                let mut m: usize = 0;
                assert(cv.subrange(0, 0) =~= Seq::<crate::patterns::CaptureView>::empty());
                assert(base + Seq::<Seq<char>>::empty() =~= base);
                assert(ebase + Seq::<(Seq<char>, Seq<char>)>::empty() =~= ebase);
                while m < matches.len()
                    invariant
                        m <= matches@.len(),
                        p < 3,
                        cv == matches@.map_values(|x: RegexCapture| crate::patterns::capture_view(x)),
                        out.nodes@.len() >= start_nodes,
                        out.edges@.len() >= start_edges,
                        out.nodes@.subrange(0, start_nodes as int) == nodes0,
                        out.edges@.subrange(0, start_edges as int) == edges0,
                        ids_after(out.nodes@, start_nodes as int) == base + http_capture_ids(
                            file.path@,
                            source@,
                            p as int,
                            cv.subrange(0, m as int),
                        ),
                        edge_ends_after(out.edges@, start_edges as int) == ebase + http_capture_edges(
                            symbols@,
                            file.path@,
                            source@,
                            p as int,
                            cv.subrange(0, m as int),
                        ),
                        forall|k: int| 0 <= k < matches@.len() ==> (#[trigger] matches@[k]).start <= matches@[k].end
                            && matches@[k].end <= vstd::utf8::encode_utf8(source@).len(),
                        forall|k: int| start_nodes <= k < out.nodes@.len() ==> (#[trigger] out.nodes@[k]).path == Some(file.path),
                    decreases matches.len() - m,
                {
                    let c = &matches[m];
                    let ghost pre = cv.subrange(0, m + 1);
                    assert(pre.drop_last() =~= cv.subrange(0, m as int));
                    assert(pre.last() == crate::patterns::capture_view(matches@[m as int]));
                    let ghost gv = pre.last().3;
                    let ghost nb = out.nodes@;
                    let ghost eb = out.edges@;
                    let line = line_at(source, c.start);
                    let mut values: Vec<String> = Vec::new();
                    let mut g: usize = 0;
                    assert(gv.subrange(0, 0) =~= Seq::<Option<Seq<char>>>::empty());
                    while g < c.groups.len()
                        invariant
                            g <= c.groups@.len(),
                            gv == crate::patterns::capture_view(*c).3,
                            views(values@) == present_groups(gv.subrange(0, g as int)),
                        decreases c.groups.len() - g,
                    {
                        let ghost pg = gv.subrange(0, g + 1);
                        assert(pg.drop_last() =~= gv.subrange(0, g as int));
                        assert(pg.last() == match c.groups@[g as int] { Some(t) => Some(t@), None => None });
                        let ghost vb = views(values@);
                        match &c.groups[g] {
                            Some(v) => {
                                values.push(v.clone());
                                assert(views(values@) =~= vb.push(v@));
                            },
                            None => {},
                        }
                        g = g + 1;
                    }
                    assert(gv.subrange(0, gv.len() as int) =~= gv);
                    let ghost vals = views(values@);
                    if values.len() >= 1 && (p == 2 || values.len() >= 2) {
                        assert(vals[0] == values@[0]@);
                        if values.len() > 1 {
                            assert(vals[1] == values@[1]@);
                        }
                        let (method, route, handler): (String, String, Option<String>) = if p == 0 {
                            (
                                if values.len() > 1 { values[1].clone() } else { String::from_str("ANY") },
                                values[0].clone(),
                                if values.len() > 2 { Some(values[2].clone()) } else { None },
                            )
                        } else if p == 1 {
                            (values[0].clone(), values[1].clone(), if values.len() > 2 { Some(values[2].clone()) } else { None })
                        } else {
                            (String::from_str("ANY"), values[0].clone(), None)
                        };
                        let node = virtual_node(
                            file,
                            NodeKind::ApiEndpoint,
                            cat3(uppercase(method.as_str()).as_str(), " ", route.as_str()),
                            line,
                        );
                        match handler {
                            Some(h) => {
                                let name = handler_name(h.as_str());
                                match find_handler(symbols, file.path.as_str(), name.as_str()) {
                                    Some(t) => {
                                        proof {
                                            let hn = http_handler_name(p as int, vals)->0;
                                            let th = the_handler(symbols@, file.path@, hn);
                                            lemma_single_handler(symbols@, symbols@.len() as int, file.path@, hn, th, t as int);
                                        }
                                        out.edges.push(CodeEdge::new(node.id.clone(), symbols[t].id.clone(), RelationKind::HandledBy));
                                        assert(out.edges@.subrange(0, start_edges as int) =~= eb.subrange(0, start_edges as int));
                                        assert(edge_ends_after(out.edges@, start_edges as int) =~= edge_ends_after(eb, start_edges as int).push(
                                            (node.id@, symbols@[t as int].id@),
                                        ));
                                    },
                                    None => {},
                                }
                            },
                            None => {},
                        }
                        out.nodes.push(node);
                        assert(ids_after(out.nodes@, start_nodes as int) =~= ids_after(nb, start_nodes as int).push(out.nodes@.last().id@));
                        assert(out.nodes@.subrange(0, start_nodes as int) =~= nb.subrange(0, start_nodes as int));
                    }
                    m = m + 1;
                }
                assert(cv.subrange(0, cv.len() as int) =~= cv);
            },
            None => {
                assert(base + Seq::<Seq<char>>::empty() =~= base);
                assert(ebase + Seq::<(Seq<char>, Seq<char>)>::empty() =~= ebase);
            },
        }
        p = p + 1;
    }
}

/// The pattern of `GoRoute` declarations: path, then page built.
pub const PATTERN_GO_ROUTE: &'static str = r#"GoRoute\s*\([^)]*?path\s*:\s*['\"]([^'\"]+)['\"][^)]*?builder\s*:[^=]*=>\s*(\w+)"#;

/// The pattern of Riverpod providers.
pub const PATTERN_PROVIDER: &'static str = r"(?m)^\s*(?:(?:late\s+)?final|var)?\s*(\w+Provider)\s*=\s*(?:State|Future|Stream|Notifier)?Provider";

pub open spec fn go_route_pattern() -> Seq<char> {
    PATTERN_GO_ROUTE@
}

pub open spec fn provider_pattern() -> Seq<char> {
    PATTERN_PROVIDER@
}

/// Position of the first symbol named `name`, from `s` on.
pub open spec fn first_named(symbols: Seq<CodeNode>, name: Seq<char>, s: int) -> Option<int>
    decreases symbols.len() - s,
{
    if s < 0 || s >= symbols.len() {
        None
    } else if symbols[s].name@ == name {
        Some(s)
    } else {
        first_named(symbols, name, s + 1)
    }
}

/// How many symbols from position `s` on carry the name.
pub open spec fn named_count_from(symbols: Seq<CodeNode>, name: Seq<char>, s: int) -> nat
    decreases symbols.len() - s,
{
    if s < 0 || s >= symbols.len() {
        0
    } else {
        (if symbols[s].name@ == name { 1nat } else { 0nat }) + named_count_from(symbols, name, s + 1)
    }
}

/// The matches that give both a route path and a page.
pub open spec fn full_route(c: crate::patterns::CaptureView) -> bool {
    c.3.len() > 1 && c.3[0] is Some && c.3[1] is Some
}

/// The ids of the route nodes the matches declare, in order.
pub open spec fn capture_route_ids(path: Seq<char>, source: Seq<char>, cs: Seq<crate::patterns::CaptureView>) -> Seq<Seq<char>>
    decreases cs.len(),
{
    if cs.len() == 0 {
        Seq::empty()
    } else {
        let r = capture_route_ids(path, source, cs.drop_last());
        let c = cs.last();
        if full_route(c) {
            r.push(virtual_id(NodeKind::Route, path, spec_line_at(source, c.0) as nat, c.3[0]->0))
        } else {
            r
        }
    }
}

/// The ends of the edges from each declared route to the symbol named as its page, when
/// exactly one symbol carries that name, in order.
pub open spec fn capture_route_edges(symbols: Seq<CodeNode>, path: Seq<char>, source: Seq<char>, cs: Seq<crate::patterns::CaptureView>) -> Seq<(Seq<char>, Seq<char>)>
    decreases cs.len(),
{
    if cs.len() == 0 {
        Seq::empty()
    } else {
        let r = capture_route_edges(symbols, path, source, cs.drop_last());
        let c = cs.last();
        if full_route(c) && named_count_from(symbols, c.3[1]->0, 0) == 1 {
            match first_named(symbols, c.3[1]->0, 0) {
                Some(t) => r.push((virtual_id(NodeKind::Route, path, spec_line_at(source, c.0) as nat, c.3[0]->0), symbols[t].id@)),
                None => r,
            }
        } else {
            r
        }
    }
}

/// The route node ids a pattern's matches declare: none when it does not compile.
pub open spec fn go_route_ids(path: Seq<char>, source: Seq<char>, pattern: Seq<char>) -> Seq<Seq<char>> {
    match crate::patterns::spec_regex_captures(pattern, source) {
        Some(cs) => capture_route_ids(path, source, cs),
        None => Seq::empty(),
    }
}

/// The route edges a pattern's matches give: none when it does not compile.
pub open spec fn go_route_edges(symbols: Seq<CodeNode>, path: Seq<char>, source: Seq<char>, pattern: Seq<char>) -> Seq<(Seq<char>, Seq<char>)> {
    match crate::patterns::spec_regex_captures(pattern, source) {
        Some(cs) => capture_route_edges(symbols, path, source, cs),
        None => Seq::empty(),
    }
}

/// The ends of the edges appended after the first `n`.
pub open spec fn edge_ends_after(edges: Seq<CodeEdge>, n: int) -> Seq<(Seq<char>, Seq<char>)> {
    edges.subrange(n, edges.len() as int).map_values(|e: CodeEdge| (e.source_id@, e.target_id@))
}

/// Flutter `GoRoute` declarations and Riverpod providers of a Dart file; a route renders its
/// page only when the page's name designates one symbol.
pub fn analyze_flutter(file: &ProjectFile, source: &str, symbols: &Vec<CodeNode>, out: &mut FrameworkAnalysis)
    ensures
        forall|k: int| old(out).nodes@.len() <= k < final(out).nodes@.len() ==> (#[trigger] final(out).nodes@[k]).path
            == Some(file.path),
        final(out).nodes@.len() >= old(out).nodes@.len(),
        final(out).edges@.len() >= old(out).edges@.len(),
        !seq_ends_with(file.path@, ".dart"@) ==> final(out).nodes@ == old(out).nodes@ && final(out).edges@ == old(out).edges@,
        seq_ends_with(file.path@, ".dart"@) ==> {
            &&& final(out).nodes@.subrange(0, old(out).nodes@.len() as int) == old(out).nodes@
            &&& ids_after(final(out).nodes@, old(out).nodes@.len() as int) == go_route_ids(file.path@, source@, go_route_pattern())
                + pattern_node_ids(NodeKind::Provider, file.path@, source@, provider_pattern())
            &&& final(out).edges@.subrange(0, old(out).edges@.len() as int) == old(out).edges@
            &&& edge_ends_after(final(out).edges@, old(out).edges@.len() as int) == go_route_edges(
                symbols@,
                file.path@,
                source@,
                go_route_pattern(),
            )
        },
{
    let ghost nodes0 = out.nodes@;
    let ghost edges0 = out.edges@;
    if !ends_with(&chars_of(file.path.as_str()), &chars_of(".dart")) {
        return;
    }
    let ghost start_nodes = out.nodes@.len();
    let ghost start_edges = out.edges@.len();
    assert(out.nodes@.subrange(0, start_nodes as int) =~= nodes0);
    assert(out.edges@.subrange(0, start_edges as int) =~= edges0);
    assert(ids_after(out.nodes@, start_nodes as int) =~= Seq::<Seq<char>>::empty());
    assert(edge_ends_after(out.edges@, start_edges as int) =~= Seq::<(Seq<char>, Seq<char>)>::empty());
    assert(PATTERN_GO_ROUTE@ == go_route_pattern());
    match regex_captures(PATTERN_GO_ROUTE, source) {
        Some(matches) => {
            let ghost cv = matches@.map_values(|x: RegexCapture| crate::patterns::capture_view(x));
            let mut m: usize = 0;
            assert(cv.subrange(0, 0) =~= Seq::<crate::patterns::CaptureView>::empty());
            while m < matches.len()
                invariant
                    m <= matches@.len(),
                    cv == matches@.map_values(|x: RegexCapture| crate::patterns::capture_view(x)),
                    out.nodes@.len() >= start_nodes,
                    out.edges@.len() >= start_edges,
                    out.nodes@.subrange(0, start_nodes as int) == nodes0,
                    out.edges@.subrange(0, start_edges as int) == edges0,
                    ids_after(out.nodes@, start_nodes as int) == capture_route_ids(file.path@, source@, cv.subrange(0, m as int)),
                    edge_ends_after(out.edges@, start_edges as int) == capture_route_edges(
                        symbols@,
                        file.path@,
                        source@,
                        cv.subrange(0, m as int),
                    ),
                    forall|k: int| 0 <= k < matches@.len() ==> (#[trigger] matches@[k]).start <= matches@[k].end
                        && matches@[k].end <= vstd::utf8::encode_utf8(source@).len(),
                    forall|k: int| start_nodes <= k < out.nodes@.len() ==> (#[trigger] out.nodes@[k]).path == Some(file.path),
                decreases matches.len() - m,
            {
                let c = &matches[m];
                let ghost pre = cv.subrange(0, m + 1);
                assert(pre.drop_last() =~= cv.subrange(0, m as int));
                assert(pre.last() == crate::patterns::capture_view(matches@[m as int]));
                let ghost nb = out.nodes@;
                let ghost eb = out.edges@;
                proof {
                    if matches@[m as int].groups@.len() > 0 {
                        assert(pre.last().3[0] == match matches@[m as int].groups@[0] { Some(t) => Some(t@), None => None });
                    }
                    if matches@[m as int].groups@.len() > 1 {
                        assert(pre.last().3[1] == match matches@[m as int].groups@[1] { Some(t) => Some(t@), None => None });
                    }
                }
                match (group(c, 0), group(c, 1)) {
                    (Some(route), Some(page)) => {
                        let line = line_at(source, c.start);
                        let node = virtual_node(file, NodeKind::Route, route, line);
                        let mut s: usize = 0;
                        let mut target: Option<usize> = None;
                        let mut count: usize = 0;
                        while s < symbols.len()
                            invariant
                                s <= symbols@.len(),
                                count <= s,
                                named_count_from(symbols@, page@, 0) == count + named_count_from(symbols@, page@, s as int),
                                target matches Some(t) ==> t < symbols@.len(),
                                target is None ==> count == 0 && first_named(symbols@, page@, 0) == first_named(
                                    symbols@,
                                    page@,
                                    s as int,
                                ),
                                target matches Some(t) ==> count >= 1 && first_named(symbols@, page@, 0) == Some(t as int),
                            decreases symbols.len() - s,
                        {
                            if str_equal(symbols[s].name.as_str(), page.as_str()) {
                                if target.is_none() {
                                    target = Some(s);
                                }
                                count = count + 1;
                            }
                            s = s + 1;
                        }
                        if count != 1 {
                            target = None;
                        }
                        match target {
                            Some(t) => {
                                out.edges.push(CodeEdge::new(node.id.clone(), symbols[t].id.clone(), RelationKind::Renders));
                                assert(edge_ends_after(out.edges@, start_edges as int) =~= edge_ends_after(eb, start_edges as int).push(
                                    (node.id@, symbols@[t as int].id@),
                                ));
                                assert(out.edges@.subrange(0, start_edges as int) =~= eb.subrange(0, start_edges as int));
                            },
                            None => {},
                        }
                        out.nodes.push(node);
                        assert(ids_after(out.nodes@, start_nodes as int) =~= ids_after(nb, start_nodes as int).push(out.nodes@.last().id@));
                        assert(out.nodes@.subrange(0, start_nodes as int) =~= nb.subrange(0, start_nodes as int));
                    },
                    _ => {},
                }
                m = m + 1;
            }
            assert(cv.subrange(0, cv.len() as int) =~= cv);
        },
        None => {},
    }
    let ghost mid = out.nodes@.len();
    let ghost route_ids = ids_after(out.nodes@, start_nodes as int);
    let ghost edges_done = out.edges@;
    assert(PATTERN_PROVIDER@ == provider_pattern());
    assert(ids_after(out.nodes@, start_nodes as int) =~= route_ids + Seq::<Seq<char>>::empty());
    match regex_captures(PATTERN_PROVIDER, source) {
        Some(matches) => {
            let ghost cv = matches@.map_values(|x: RegexCapture| crate::patterns::capture_view(x));
            let mut m: usize = 0;
            assert(cv.subrange(0, 0) =~= Seq::<crate::patterns::CaptureView>::empty());
            while m < matches.len()
                invariant
                    m <= matches@.len(),
                    cv == matches@.map_values(|x: RegexCapture| crate::patterns::capture_view(x)),
                    out.nodes@.len() >= mid,
                    mid >= start_nodes,
                    out.edges@ == edges_done,
                    out.nodes@.subrange(0, start_nodes as int) == nodes0,
                    ids_after(out.nodes@, start_nodes as int) == route_ids + capture_node_ids(
                        NodeKind::Provider,
                        file.path@,
                        source@,
                        cv.subrange(0, m as int),
                    ),
                    forall|k: int| 0 <= k < matches@.len() ==> (#[trigger] matches@[k]).start <= matches@[k].end
                        && matches@[k].end <= vstd::utf8::encode_utf8(source@).len(),
                    forall|k: int| start_nodes <= k < out.nodes@.len() ==> (#[trigger] out.nodes@[k]).path == Some(file.path),
                decreases matches.len() - m,
            {
                let c = &matches[m];
                let ghost pre = cv.subrange(0, m + 1);
                assert(pre.drop_last() =~= cv.subrange(0, m as int));
                assert(pre.last() == crate::patterns::capture_view(matches@[m as int]));
                let ghost nb = out.nodes@;
                proof {
                    if matches@[m as int].groups@.len() > 0 {
                        assert(pre.last().3[0] == match matches@[m as int].groups@[0] { Some(t) => Some(t@), None => None });
                    }
                }
                match group(c, 0) {
                    Some(name) => {
                        let line = line_at(source, c.start);
                        out.nodes.push(virtual_node(file, NodeKind::Provider, name, line));
                        assert(ids_after(out.nodes@, start_nodes as int) =~= ids_after(nb, start_nodes as int).push(out.nodes@.last().id@));
                        assert(out.nodes@.subrange(0, start_nodes as int) =~= nb.subrange(0, start_nodes as int));
                    },
                    None => {},
                }
                m = m + 1;
            }
            assert(cv.subrange(0, cv.len() as int) =~= cv);
        },
        None => {},
    }
}

/// The symbol is named `name` and, when `path` is given, lies in that file.
pub open spec fn named_in(n: CodeNode, name: Seq<char>, path: Option<Seq<char>>) -> bool {
    n.name@ == name && match path {
        Some(p) => n.path matches Some(np) && np@ == p,
        None => true,
    }
}

/// The text of an optional path.
pub open spec fn opt_text(path: Option<&str>) -> Option<Seq<char>> {
    match path {
        Some(p) => Some(p@),
        None => None,
    }
}

/// The indices below `n` of the symbols named `name` (in the file `path` when given), in order.
pub open spec fn named_indices(s: Seq<CodeNode>, name: Seq<char>, path: Option<Seq<char>>, n: int) -> Seq<usize>
    decreases n,
{
    if n <= 0 {
        Seq::empty()
    } else if named_in(s[n - 1], name, path) {
        named_indices(s, name, path, n - 1).push((n - 1) as usize)
    } else {
        named_indices(s, name, path, n - 1)
    }
}

/// Symbols named `name`, in the file `path` when given.
fn named_symbols(symbols: &Vec<CodeNode>, name: &str, path: Option<&str>) -> (res: Vec<usize>)
    ensures
        res@ == named_indices(symbols@, name@, opt_text(path), symbols@.len() as int),
        forall|k: int| 0 <= k < res@.len() ==> res@[k] < symbols@.len(),
{
    let mut out: Vec<usize> = Vec::new();
    let mut i: usize = 0;
    while i < symbols.len()
        invariant
            i <= symbols@.len(),
            out@ == named_indices(symbols@, name@, opt_text(path), i as int),
            forall|k: int| 0 <= k < out@.len() ==> out@[k] < i,
        decreases symbols.len() - i,
    {
        let n = &symbols[i];
        let path_ok = match path {
            Some(p) => match &n.path {
                Some(np) => str_equal(np.as_str(), p),
                None => false,
            },
            None => true,
        };
        if path_ok && str_equal(n.name.as_str(), name) {
            out.push(i);
        }
        i = i + 1;
    }
    out
}

/// The relation a match of the `p`-th inheritance pattern declares, between the symbols
/// it names when each is unambiguous (the target looked for in the file first): its ends
/// and kind.
pub open spec fn inheritance_edge(s: Seq<CodeNode>, path: Seq<char>, p: int, c: crate::patterns::CaptureView) -> Option<(Seq<char>, Seq<char>, RelationKind)> {
    if c.3.len() > 1 && c.3[0] is Some && c.3[1] is Some {
        let a = c.3[0]->0;
        let b = c.3[1]->0;
        let left = if p == 0 { b } else { a };
        let right = if p == 0 { a } else { b };
        let sources = named_indices(s, left, Some(path), s.len() as int);
        let local = named_indices(s, right, Some(path), s.len() as int);
        let targets = if local.len() == 1 { local } else { named_indices(s, right, None, s.len() as int) };
        if sources.len() == 1 && targets.len() == 1 {
            Some((s[sources[0] as int].id@, s[targets[0] as int].id@, if p == 0 || p == 2 { RelationKind::Implements } else { RelationKind::Extends }))
        } else {
            None
        }
    } else {
        None
    }
}

/// The relations the matches of the `p`-th inheritance pattern declare, in order.
pub open spec fn inheritance_capture_edges(s: Seq<CodeNode>, path: Seq<char>, p: int, cs: Seq<crate::patterns::CaptureView>) -> Seq<(Seq<char>, Seq<char>, RelationKind)>
    decreases cs.len(),
{
    if cs.len() == 0 {
        Seq::empty()
    } else {
        let r = inheritance_capture_edges(s, path, p, cs.drop_last());
        match inheritance_edge(s, path, p, cs.last()) {
            Some(e) => r.push(e),
            None => r,
        }
    }
}

/// The three inheritance patterns.
pub open spec fn inheritance_patterns() -> Seq<Seq<char>> {
    seq![
        r"impl\s+([A-Za-z_]\w*)\s+for\s+([A-Za-z_]\w*)"@,
        r"class\s+([A-Za-z_]\w*)\s+extends\s+([A-Za-z_]\w*)"@,
        r"class\s+([A-Za-z_]\w*)\s+implements\s+([A-Za-z_]\w*)"@,
    ]
}

/// The relations the first `n` inheritance patterns declare, pattern after pattern.
pub open spec fn inheritance_edges(s: Seq<CodeNode>, path: Seq<char>, source: Seq<char>, n: int) -> Seq<(Seq<char>, Seq<char>, RelationKind)>
    decreases n,
{
    if n <= 0 {
        Seq::empty()
    } else {
        inheritance_edges(s, path, source, n - 1) + match crate::patterns::spec_regex_captures(inheritance_patterns()[n - 1], source) {
            Some(cs) => inheritance_capture_edges(s, path, n - 1, cs),
            None => Seq::empty(),
        }
    }
}

/// The edges appended after the first `n`: ends and kind.
pub open spec fn edges_after(edges: Seq<CodeEdge>, n: int) -> Seq<(Seq<char>, Seq<char>, RelationKind)> {
    edges.subrange(n, edges.len() as int).map_values(|e: CodeEdge| (e.source_id@, e.target_id@, e.relation))
}

/// `extends` and `implements` relations, and Rust `impl Trait for Type`, between
/// unambiguous symbols.
pub fn analyze_inheritance(file: &ProjectFile, source: &str, symbols: &Vec<CodeNode>, out: &mut FrameworkAnalysis)
    ensures
        final(out).nodes@ == old(out).nodes@,
        forall|k: int| old(out).edges@.len() <= k < final(out).edges@.len() ==> (#[trigger] final(out).edges@[k]).relation
            == RelationKind::Implements || final(out).edges@[k].relation == RelationKind::Extends,
        final(out).edges@.len() >= old(out).edges@.len(),
        final(out).edges@.subrange(0, old(out).edges@.len() as int) == old(out).edges@,
        edges_after(final(out).edges@, old(out).edges@.len() as int) == inheritance_edges(symbols@, file.path@, source@, 3),
{
    let patterns: Vec<&str> = vec![
        r"impl\s+([A-Za-z_]\w*)\s+for\s+([A-Za-z_]\w*)",
        r"class\s+([A-Za-z_]\w*)\s+extends\s+([A-Za-z_]\w*)",
        r"class\s+([A-Za-z_]\w*)\s+implements\s+([A-Za-z_]\w*)",
    ];
    assert(patterns@.map_values(|t: &str| t@) =~= inheritance_patterns());
    let ghost start_edges = out.edges@.len();
    let ghost nodes = out.nodes@;
    let ghost edges0 = out.edges@;
    assert(out.edges@.subrange(0, start_edges as int) =~= edges0);
    assert(edges_after(out.edges@, start_edges as int) =~= Seq::<(Seq<char>, Seq<char>, RelationKind)>::empty());
    let mut p: usize = 0;
    while p < patterns.len()
        invariant
            p <= patterns@.len(),
            patterns@.len() == 3,
            patterns@.map_values(|t: &str| t@) == inheritance_patterns(),
            out.nodes@ == nodes,
            out.edges@.len() >= start_edges,
            out.edges@.subrange(0, start_edges as int) == edges0,
            edges_after(out.edges@, start_edges as int) == inheritance_edges(symbols@, file.path@, source@, p as int),
            forall|k: int| start_edges <= k < out.edges@.len() ==> (#[trigger] out.edges@[k]).relation
                == RelationKind::Implements || out.edges@[k].relation == RelationKind::Extends,
        decreases patterns.len() - p,
    {
        let implements = p == 0 || p == 2;
        let rust_impl = p == 0;
        let ghost base = edges_after(out.edges@, start_edges as int);
        assert(patterns@[p as int]@ == inheritance_patterns()[p as int]);
        match regex_captures(patterns[p], source) {
            Some(matches) => {
                let ghost cv = matches@.map_values(|x: RegexCapture| crate::patterns::capture_view(x));
                let mut m: usize = 0;
                assert(cv.subrange(0, 0) =~= Seq::<crate::patterns::CaptureView>::empty());
                assert(base + Seq::<(Seq<char>, Seq<char>, RelationKind)>::empty() =~= base);
                while m < matches.len()
                    invariant
                        m <= matches@.len(),
                        p < 3,
                        implements == (p == 0 || p == 2),
                        rust_impl == (p == 0),
                        cv == matches@.map_values(|x: RegexCapture| crate::patterns::capture_view(x)),
                        out.nodes@ == nodes,
                        out.edges@.len() >= start_edges,
                        out.edges@.subrange(0, start_edges as int) == edges0,
                        edges_after(out.edges@, start_edges as int) == base + inheritance_capture_edges(
                            symbols@,
                            file.path@,
                            p as int,
                            cv.subrange(0, m as int),
                        ),
                        forall|k: int| start_edges <= k < out.edges@.len() ==> (#[trigger] out.edges@[k]).relation
                            == RelationKind::Implements || out.edges@[k].relation == RelationKind::Extends,
                    decreases matches.len() - m,
                {
                    let c = &matches[m];
                    let ghost pre = cv.subrange(0, m + 1);
                    assert(pre.drop_last() =~= cv.subrange(0, m as int));
                    assert(pre.last() == crate::patterns::capture_view(matches@[m as int]));
                    let ghost eb = out.edges@;
                    proof {
                        if matches@[m as int].groups@.len() > 0 {
                            assert(pre.last().3[0] == match matches@[m as int].groups@[0] { Some(t) => Some(t@), None => None });
                        }
                        if matches@[m as int].groups@.len() > 1 {
                            assert(pre.last().3[1] == match matches@[m as int].groups@[1] { Some(t) => Some(t@), None => None });
                        }
                    }
                    match (group(c, 0), group(c, 1)) {
                        (Some(a), Some(b)) => {
                            let (left, right) = if rust_impl { (b, a) } else { (a, b) };
                            let sources = named_symbols(symbols, left.as_str(), Some(file.path.as_str()));
                            let local = named_symbols(symbols, right.as_str(), Some(file.path.as_str()));
                            let targets = if local.len() == 1 { local } else { named_symbols(symbols, right.as_str(), None) };
                            if sources.len() == 1 && targets.len() == 1 {
                                out.edges.push(CodeEdge::new(
                                    symbols[sources[0]].id.clone(),
                                    symbols[targets[0]].id.clone(),
                                    if implements { RelationKind::Implements } else { RelationKind::Extends },
                                ));
                                assert(out.edges@.subrange(0, start_edges as int) =~= eb.subrange(0, start_edges as int));
                                assert(edges_after(out.edges@, start_edges as int) =~= edges_after(eb, start_edges as int).push(
                                    (out.edges@.last().source_id@, out.edges@.last().target_id@, out.edges@.last().relation),
                                ));
                            }
                        },
                        _ => {},
                    }
                    m = m + 1;
                }
                assert(cv.subrange(0, cv.len() as int) =~= cv);
            },
            None => {
                assert(base + Seq::<(Seq<char>, Seq<char>, RelationKind)>::empty() =~= base);
            },
        }
        p = p + 1;
    }
}

/// Tables created by SQL `CREATE TABLE` statements.
pub fn analyze_sql(file: &ProjectFile, source: &str, out: &mut FrameworkAnalysis)
    ensures
        final(out).edges@ == old(out).edges@,
        final(out).nodes@.len() >= old(out).nodes@.len(),
        forall|k: int| old(out).nodes@.len() <= k < final(out).nodes@.len() ==> (#[trigger] final(out).nodes@[k]).kind
            == NodeKind::DatabaseTable && final(out).nodes@[k].path == Some(file.path),
        final(out).nodes@.subrange(0, old(out).nodes@.len() as int) == old(out).nodes@,
        ids_after(final(out).nodes@, old(out).nodes@.len() as int) == pattern_node_ids(
            NodeKind::DatabaseTable,
            file.path@,
            source@,
            r#"(?i)create\s+table\s+(?:if\s+not\s+exists\s+)?[\"`]?([A-Za-z_]\w*)"#@,
        ),
{
    let ghost start_nodes = out.nodes@.len();
    let ghost nodes0 = out.nodes@;
    let ghost edges = out.edges@;
    assert(out.nodes@.subrange(0, start_nodes as int) =~= nodes0);
    assert(ids_after(out.nodes@, start_nodes as int) =~= Seq::<Seq<char>>::empty());
    match regex_captures(r#"(?i)create\s+table\s+(?:if\s+not\s+exists\s+)?[\"`]?([A-Za-z_]\w*)"#, source) {
        Some(matches) => {
            let ghost cv = matches@.map_values(|x: RegexCapture| crate::patterns::capture_view(x));
            let mut m: usize = 0;
            assert(cv.subrange(0, 0) =~= Seq::<crate::patterns::CaptureView>::empty());
            while m < matches.len()
                invariant
                    m <= matches@.len(),
                    cv == matches@.map_values(|x: RegexCapture| crate::patterns::capture_view(x)),
                    out.edges@ == edges,
                    out.nodes@.len() >= start_nodes,
                    out.nodes@.subrange(0, start_nodes as int) == nodes0,
                    ids_after(out.nodes@, start_nodes as int) == capture_node_ids(
                        NodeKind::DatabaseTable,
                        file.path@,
                        source@,
                        cv.subrange(0, m as int),
                    ),
                    forall|k: int| 0 <= k < matches@.len() ==> (#[trigger] matches@[k]).start <= matches@[k].end
                        && matches@[k].end <= vstd::utf8::encode_utf8(source@).len(),
                    forall|k: int| start_nodes <= k < out.nodes@.len() ==> (#[trigger] out.nodes@[k]).kind
                        == NodeKind::DatabaseTable && out.nodes@[k].path == Some(file.path),
                decreases matches.len() - m,
            {
                let c = &matches[m];
                let ghost pre = cv.subrange(0, m + 1);
                assert(pre.drop_last() =~= cv.subrange(0, m as int));
                assert(pre.last() == crate::patterns::capture_view(matches@[m as int]));
                let ghost before = out.nodes@;
                proof {
                    if matches@[m as int].groups@.len() > 0 {
                        assert(pre.last().3[0] == match matches@[m as int].groups@[0] { Some(t) => Some(t@), None => None });
                    }
                }
                match group(c, 0) {
                    Some(name) => {
                        let line = line_at(source, c.start);
                        out.nodes.push(virtual_node(file, NodeKind::DatabaseTable, name, line));
                        assert(ids_after(out.nodes@, start_nodes as int) =~= ids_after(before, start_nodes as int).push(
                            out.nodes@.last().id@,
                        ));
                        assert(out.nodes@.subrange(0, start_nodes as int) =~= before.subrange(0, start_nodes as int));
                    },
                    None => {},
                }
                m = m + 1;
            }
            assert(cv.subrange(0, cv.len() as int) =~= cv);
        },
        None => {},
    }
}


// ---------------------------------------------------------------------------
// Symfony
// ---------------------------------------------------------------------------

/// A class declared in the file.
pub open spec fn class_of_file(n: CodeNode, path: Seq<char>) -> bool {
    n.kind == NodeKind::Class && (n.path matches Some(p) && p@ == path)
}

/// The name after the last `\` of a namespaced name.
fn short_name(raw: &str) -> (res: String)
    ensures
        res@ == crate::line_analysis::after_last(raw@, seq!['\\']),
{
    let c = chars_of(raw);
    let ghost seps = seq!['\\'];
    let mut start: usize = 0;
    let mut i: usize = 0;
    assert(c@.subrange(0, 0) =~= Seq::<char>::empty());
    while i < c.len()
        invariant
            i <= c@.len(),
            start <= i,
            c@ == raw@,
            seps == seq!['\\'],
            c@.subrange(start as int, i as int) == crate::line_analysis::after_last(c@.subrange(0, i as int), seps),
        decreases c.len() - i,
    {
        let ghost pre = c@.subrange(0, i + 1);
        assert(pre.drop_last() =~= c@.subrange(0, i as int));
        assert(pre.last() == c@[i as int]);
        proof {
            crate::line_analysis::lemma_single_contains('\\', c@[i as int]);
        }
        if c[i] == '\\' {
            start = i + 1;
            assert(c@.subrange(start as int, i + 1) =~= Seq::<char>::empty());
        } else {
            assert(c@.subrange(start as int, i + 1) =~= c@.subrange(start as int, i as int).push(c@[i as int]));
        }
        i = i + 1;
    }
    assert(c@.subrange(0, c@.len() as int) =~= c@);
    string_of(&slice_chars(&c, start, c.len()))
}

/// A class named `name`.
pub open spec fn class_named(n: CodeNode, name: Seq<char>) -> bool {
    n.kind == NodeKind::Class && n.name@ == name
}

/// How many symbols are classes named `name`.
pub open spec fn count_classes_named(s: Seq<CodeNode>, name: Seq<char>) -> nat
    decreases s.len(),
{
    if s.len() == 0 {
        0
    } else {
        count_classes_named(s.drop_last(), name) + if class_named(s.last(), name) { 1nat } else { 0nat }
    }
}

/// How many symbols are classes declared in the file.
pub open spec fn count_classes_of_file(s: Seq<CodeNode>, path: Seq<char>) -> nat
    decreases s.len(),
{
    if s.len() == 0 {
        0
    } else {
        count_classes_of_file(s.drop_last(), path) + if class_of_file(s.last(), path) { 1nat } else { 0nat }
    }
}

/// The only class with the name (namespace dropped), if there is exactly one.
pub fn unique_class(symbols: &Vec<CodeNode>, raw_name: &str) -> (res: Option<usize>)
    ensures
        res is Some <==> count_classes_named(symbols@, crate::line_analysis::after_last(raw_name@, seq!['\\'])) == 1,
        res matches Some(i) ==> i < symbols@.len() && symbols@[i as int].kind == NodeKind::Class && class_named(
            symbols@[i as int],
            crate::line_analysis::after_last(raw_name@, seq!['\\']),
        ),
{
    let name = short_name(raw_name);
    let mut count: usize = 0;
    let mut found: Option<usize> = None;
    let mut i: usize = 0;
    while i < symbols.len()
        invariant
            i <= symbols@.len(),
            count <= i,
            count == count_classes_named(symbols@.subrange(0, i as int), name@),
            found is Some <==> count > 0,
            found matches Some(f) ==> f < i && class_named(symbols@[f as int], name@),
        decreases symbols.len() - i,
    {
        assert(symbols@.subrange(0, i + 1).drop_last() =~= symbols@.subrange(0, i as int));
        assert(symbols@.subrange(0, i + 1).last() == symbols@[i as int]);
        if symbols[i].kind == NodeKind::Class && str_equal(symbols[i].name.as_str(), name.as_str()) {
            count = count + 1;
            if found.is_none() {
                found = Some(i);
            }
        }
        i = i + 1;
    }
    assert(symbols@.subrange(0, symbols@.len() as int) =~= symbols@);
    if count == 1 { found } else { None }
}

/// The only class declared in the file, if there is exactly one.
pub fn class_in_file(symbols: &Vec<CodeNode>, path: &str) -> (res: Option<usize>)
    ensures
        res is Some <==> count_classes_of_file(symbols@, path@) == 1,
        res matches Some(i) ==> i < symbols@.len() && class_of_file(symbols@[i as int], path@),
{
    let mut count: usize = 0;
    let mut found: Option<usize> = None;
    let mut i: usize = 0;
    while i < symbols.len()
        invariant
            i <= symbols@.len(),
            count <= i,
            count == count_classes_of_file(symbols@.subrange(0, i as int), path@),
            found is Some <==> count > 0,
            found matches Some(f) ==> f < i && class_of_file(symbols@[f as int], path@),
        decreases symbols.len() - i,
    {
        assert(symbols@.subrange(0, i + 1).drop_last() =~= symbols@.subrange(0, i as int));
        assert(symbols@.subrange(0, i + 1).last() == symbols@[i as int]);
        let hit = symbols[i].kind == NodeKind::Class && match &symbols[i].path {
            Some(p) => str_equal(p.as_str(), path),
            None => false,
        };
        if hit {
            count = count + 1;
            if found.is_none() {
                found = Some(i);
            }
        }
        i = i + 1;
    }
    assert(symbols@.subrange(0, symbols@.len() as int) =~= symbols@);
    if count == 1 { found } else { None }
}

/// A method of the file whose lines span `line` (an absent start never does; an absent end
/// counts as 0).
pub open spec fn spans_line(n: CodeNode, path: Seq<char>, line: int) -> bool {
    &&& n.kind == NodeKind::Method
    &&& (n.path matches Some(p) && p@ == path)
    &&& (match n.start_line { Some(s) => s <= line, None => usize::MAX <= line })
    &&& (match n.end_line { Some(e) => e >= line, None => 0 >= line })
}

/// The width `min_by_key` compares: end (or the largest value) minus start (or 0).
pub open spec fn span_width(n: CodeNode) -> int {
    (match n.end_line { Some(e) => e as int, None => usize::MAX as int }) - (match n.start_line { Some(s) => s as int, None => 0 })
}

/// The narrowest method of the file around `line`; the first among equally narrow ones.
pub fn enclosing_method(symbols: &Vec<CodeNode>, path: &str, line: usize) -> (res: Option<usize>)
    ensures
        match res {
            Some(i) => i < symbols@.len() && spans_line(symbols@[i as int], path@, line as int)
                && (forall|k: int| 0 <= k < symbols@.len() && spans_line(symbols@[k], path@, line as int)
                    ==> span_width(symbols@[i as int]) <= span_width(#[trigger] symbols@[k]))
                && (forall|k: int| 0 <= k < i && spans_line(symbols@[k], path@, line as int)
                    ==> span_width(symbols@[i as int]) < span_width(#[trigger] symbols@[k])),
            None => forall|k: int| 0 <= k < symbols@.len() ==> !spans_line(#[trigger] symbols@[k], path@, line as int),
        },
{
    let mut best: Option<usize> = None;
    let mut best_width: usize = 0;
    let mut i: usize = 0;
    while i < symbols.len()
        invariant
            i <= symbols@.len(),
            match best {
                Some(b) => b < i && spans_line(symbols@[b as int], path@, line as int) && best_width == span_width(symbols@[b as int])
                    && (forall|k: int| 0 <= k < i && spans_line(symbols@[k], path@, line as int)
                        ==> best_width <= span_width(#[trigger] symbols@[k]))
                    && (forall|k: int| 0 <= k < b && spans_line(symbols@[k], path@, line as int)
                        ==> best_width < span_width(#[trigger] symbols@[k])),
                None => forall|k: int| 0 <= k < i ==> !spans_line(#[trigger] symbols@[k], path@, line as int),
            },
        decreases symbols.len() - i,
    {
        let n = &symbols[i];
        let in_file = n.kind == NodeKind::Method && match &n.path {
            Some(p) => str_equal(p.as_str(), path),
            None => false,
        };
        let start = match n.start_line {
            Some(s) => s,
            None => usize::MAX,
        };
        let end = match n.end_line {
            Some(e) => e,
            None => 0,
        };
        if in_file && start <= line && end >= line {
            let width_end = match n.end_line {
                Some(e) => e,
                None => usize::MAX,
            };
            let width_start = match n.start_line {
                Some(s) => s,
                None => 0,
            };
            proof {
                assert(span_width(symbols@[i as int]) >= 0);
            }
            let width = width_end - width_start;
            match best {
                Some(b) => {
                    if width < best_width {
                        best = Some(i);
                        best_width = width;
                    }
                },
                None => {
                    best = Some(i);
                    best_width = width;
                },
            }
        }
        i = i + 1;
    }
    best
}

/// Route files of YAML configuration.
pub open spec fn spec_route_yaml(path: Seq<char>) -> bool {
    let n = spec_to_lowercase(spec_replace_char(path, '\\', '/'));
    (seq_ends_with(n, ".yaml"@) || seq_ends_with(n, ".yml"@)) && (seq_contains(n, "routes"@) || seq_contains(n, "routing"@))
}

/// Whether the file declares routes in YAML.
pub fn is_route_yaml(path: &str) -> (res: bool)
    ensures
        res == spec_route_yaml(path@),
{
    let replaced = string_of(&crate::text::replace_char(&chars_of(path), '\\', '/'));
    let n = chars_of(to_lowercase(replaced.as_str()).as_str());
    (ends_with(&n, &chars_of(".yaml")) || ends_with(&n, &chars_of(".yml"))) && (contains(&n, &chars_of("routes"))
        || contains(&n, &chars_of("routing")))
}

/// The lines `from .. from + count` of the lines (as far as there are any), joined by `\n`.
pub open spec fn spec_lines_window(lines: Seq<Seq<char>>, from: int, count: int) -> Seq<char> {
    if from >= lines.len() {
        Seq::empty()
    } else {
        let end = if from + count < lines.len() { from + count } else { lines.len() as int };
        crate::text::spec_join(lines.subrange(from, end), seq!['\n'])
    }
}

/// The lines `from .. from + count` of a source, joined by `\n`.
fn lines_window(source: &str, from: usize, count: usize) -> (res: String)
    ensures
        res@ == spec_lines_window(crate::text::spec_lines(source@), from as int, count as int),
{
    let lines = crate::text::split_lines(&chars_of(source));
    let ghost lv = crate::text::spec_lines(source@);
    let mut out: Vec<char> = Vec::new();
    if from >= lines.len() {
        assert(out@ =~= Seq::<char>::empty());
        return string_of(&out);
    }
    let mut k = from;
    let mut taken: usize = 0;
    let ghost sep = seq!['\n'];
    while k < lines.len() && taken < count
        invariant
            from <= k <= lines@.len(),
            from < lines@.len(),
            lines@.len() == lv.len(),
            forall|j: int| 0 <= j < lines@.len() ==> (#[trigger] lines@[j])@ == lv[j],
            taken == k - from,
            taken <= count,
            sep == seq!['\n'],
            out@ == crate::text::spec_join(lv.subrange(from as int, k as int), sep),
        decreases lines.len() - k,
    {
        let ghost before = lv.subrange(from as int, k as int);
        let ghost after = lv.subrange(from as int, k + 1);
        if taken > 0 {
            out.push('\n');
        }
        crate::text::append_chars(&mut out, &lines[k]);
        proof {
            assert(after.drop_last() =~= before);
            assert(after.last() == lines@[k as int]@);
            if taken == 0 {
                assert(after.len() == 1);
                assert(out@ =~= after[0]);
            } else {
                assert(out@ =~= crate::text::spec_join(before, sep) + sep + after.last());
            }
        }
        taken = taken + 1;
        k = k + 1;
    }
    assert(k as int == if from + count < lv.len() { from + count } else { lv.len() as int });
    string_of(&out)
}

/// The pattern of a route attribute or annotation.
pub const PATTERN_PHP_ROUTE: &'static str = r#"(?m)(?:#\[Route\(|@Route\()[^\]\n]*(?:path\s*:\s*)?['\"]([^'\"]+)['\"][^\]\n]*"#;

/// The pattern of the methods a route attribute names.
pub const PATTERN_PHP_METHODS: &'static str = r#"methods?\s*:\s*\[?\s*['\"]([A-Za-z]+)['\"]"#;

/// The method a route attribute names, in uppercase, or `ANY`.
pub open spec fn php_method(whole: Seq<char>) -> Seq<char> {
    match crate::patterns::spec_regex_captures(PATTERN_PHP_METHODS@, whole) {
        Some(found) => if found.len() > 0 && found[0].3.len() > 0 && found[0].3[0] is Some {
            (found[0].3[0]->0).map_values(|ch: char| ascii_upper(ch))
        } else {
            "ANY"@
        },
        None => "ANY"@,
    }
}

/// The id of the endpoint the last route attribute of the twenty lines above a method of the
/// file declares, if any.
pub open spec fn php_route_id(path: Seq<char>, source: Seq<char>, n: CodeNode) -> Option<Seq<char>> {
    if n.kind == NodeKind::Method && (n.path matches Some(p) && p@ == path) {
        let method_line: int = match n.start_line { Some(l) => l as int, None => 1 };
        let prefix_start: int = if method_line >= 21 { method_line - 21 } else { 0 };
        let take: int = if method_line >= prefix_start + 1 { method_line - (prefix_start + 1) } else { 0 };
        let window = spec_lines_window(crate::text::spec_lines(source), prefix_start, take);
        match crate::patterns::spec_regex_captures(PATTERN_PHP_ROUTE@, window) {
            Some(cs) => if cs.len() > 0 && cs.last().3.len() > 0 && cs.last().3[0] is Some {
                let line = if prefix_start + spec_line_at(window, cs.last().0) > usize::MAX {
                    usize::MAX as int
                } else {
                    prefix_start + spec_line_at(window, cs.last().0)
                };
                Some(virtual_id(NodeKind::ApiEndpoint, path, line as nat, php_method(cs.last().2) + " "@ + cs.last().3[0]->0))
            } else {
                None
            },
            None => None,
        }
    } else {
        None
    }
}

/// The ids of the endpoints the first `n` symbols' route attributes declare, in order.
pub open spec fn php_route_ids(path: Seq<char>, source: Seq<char>, s: Seq<CodeNode>, n: int) -> Seq<Seq<char>>
    decreases n,
{
    if n <= 0 {
        Seq::empty()
    } else {
        match php_route_id(path, source, s[n - 1]) {
            Some(id) => php_route_ids(path, source, s, n - 1).push(id),
            None => php_route_ids(path, source, s, n - 1),
        }
    }
}

/// Routes declared by `#[Route]` or `@Route` just above a controller method.
pub fn analyze_php_routes(file: &ProjectFile, source: &str, symbols: &Vec<CodeNode>, output: &mut FrameworkAnalysis)
    ensures
        final(output).nodes@.len() >= old(output).nodes@.len(),
        forall|k: int| old(output).nodes@.len() <= k < final(output).nodes@.len() ==> (#[trigger] final(output).nodes@[k]).path
            == Some(file.path) && final(output).nodes@[k].kind == NodeKind::ApiEndpoint,
        final(output).nodes@.subrange(0, old(output).nodes@.len() as int) == old(output).nodes@,
        ids_after(final(output).nodes@, old(output).nodes@.len() as int) == php_route_ids(
            file.path@,
            source@,
            symbols@,
            symbols@.len() as int,
        ),
        final(output).edges@.len() >= old(output).edges@.len(),
        final(output).edges@.subrange(0, old(output).edges@.len() as int) == old(output).edges@,
{
    let ghost start_nodes = output.nodes@.len();
    let ghost nodes0 = output.nodes@;
    let ghost edges0 = output.edges@;
    assert(output.nodes@.subrange(0, start_nodes as int) =~= nodes0);
    assert(output.edges@.subrange(0, edges0.len() as int) =~= edges0);
    assert(ids_after(output.nodes@, start_nodes as int) =~= Seq::<Seq<char>>::empty());
    let mut i: usize = 0;
    while i < symbols.len()
        invariant
            i <= symbols@.len(),
            output.nodes@.len() >= start_nodes,
            output.nodes@.subrange(0, start_nodes as int) == nodes0,
            output.edges@.len() >= edges0.len(),
            output.edges@.subrange(0, edges0.len() as int) == edges0,
            ids_after(output.nodes@, start_nodes as int) == php_route_ids(file.path@, source@, symbols@, i as int),
            forall|k: int| start_nodes <= k < output.nodes@.len() ==> (#[trigger] output.nodes@[k]).path == Some(file.path)
                && output.nodes@[k].kind == NodeKind::ApiEndpoint,
        decreases symbols.len() - i,
    {
        let ghost nb = output.nodes@;
        let ghost eb = output.edges@;
        let handler = &symbols[i];
        let in_file = handler.kind == NodeKind::Method && match &handler.path {
            Some(p) => str_equal(p.as_str(), file.path.as_str()),
            None => false,
        };
        if in_file {
            let method_line = match handler.start_line {
                Some(l) => l,
                None => 1,
            };
            let prefix_start = if method_line >= 21 { method_line - 21 } else { 0 };
            let take = if method_line >= prefix_start + 1 { method_line - (prefix_start + 1) } else { 0 };
            let prefix = lines_window(source, prefix_start, take);
            match regex_captures(PATTERN_PHP_ROUTE, prefix.as_str()) {
                Some(matches) => {
                    if matches.len() > 0 {
                        let last = &matches[matches.len() - 1];
                        proof {
                            assert(matches@[matches@.len() - 1].end <= vstd::utf8::encode_utf8(prefix@).len());
                            let cl = crate::patterns::capture_view(matches@[matches@.len() - 1]);
                            assert(matches@.map_values(|x: RegexCapture| crate::patterns::capture_view(x)).last() == cl);
                            if matches@[matches@.len() - 1].groups@.len() > 0 {
                                assert(cl.3[0] == match matches@[matches@.len() - 1].groups@[0] { Some(t) => Some(t@), None => None });
                            }
                        }
                        match group(last, 0) {
                            Some(route) => {
                                let line = crate::text::sat_add(prefix_start, line_at(prefix.as_str(), last.start));
                                let method = match regex_captures(PATTERN_PHP_METHODS, last.whole.as_str()) {
                                    Some(found) => if found.len() > 0 {
                                        proof {
                                            if found@[0].groups@.len() > 0 {
                                                assert(crate::patterns::capture_view(found@[0]).3[0] == match found@[0].groups@[0] {
                                                    Some(t) => Some(t@),
                                                    None => None,
                                                });
                                            }
                                        }
                                        match group(&found[0], 0) {
                                            Some(m) => uppercase(m.as_str()),
                                            None => String::from_str("ANY"),
                                        }
                                    } else {
                                        String::from_str("ANY")
                                    },
                                    None => String::from_str("ANY"),
                                };
                                assert(method@ == php_method(last.whole@));
                                let mut node = virtual_node(file, NodeKind::ApiEndpoint, cat3(method.as_str(), " ", route.as_str()), line);
                                node.owner = crate::model::copy_opt_string(&handler.owner);
                                output.edges.push(CodeEdge::new(node.id.clone(), handler.id.clone(), RelationKind::HandledBy));
                                output.nodes.push(node);
                                assert(ids_after(output.nodes@, start_nodes as int) =~= ids_after(nb, start_nodes as int).push(
                                    output.nodes@.last().id@,
                                ));
                                assert(output.nodes@.subrange(0, start_nodes as int) =~= nb.subrange(0, start_nodes as int));
                                assert(output.edges@.subrange(0, edges0.len() as int) =~= eb.subrange(0, edges0.len() as int));
                            },
                            None => {},
                        }
                    }
                },
                None => {},
            }
        }
        i = i + 1;
    }
}


/// A route block of a YAML routing file, as read so far.
struct RouteBlock {
    name: String,
    path: Option<String>,
    controller: Option<String>,
    methods: Option<String>,
    line: usize,
}

fn empty_block() -> (res: RouteBlock)
    ensures
        res.name@ == Seq::<char>::empty(),
        res.path is None,
        res.controller is None,
        res.methods is None,
        res.line == 0,
{
    RouteBlock { name: String::new(), path: None, controller: None, methods: None, line: 0 }
}

/// A method named `method` of the class `owner`.
pub open spec fn owned_method(n: CodeNode, owner: Seq<char>, method: Seq<char>) -> bool {
    (n.owner matches Some(o) && o@ == owner) && n.name@ == method && n.kind == NodeKind::Method
}

/// The indices below `n` of the methods named `method` of the class `owner`, in order.
pub open spec fn owned_indices(s: Seq<CodeNode>, owner: Seq<char>, method: Seq<char>, n: int) -> Seq<usize>
    decreases n,
{
    if n <= 0 {
        Seq::empty()
    } else if owned_method(s[n - 1], owner, method) {
        owned_indices(s, owner, method, n - 1).push((n - 1) as usize)
    } else {
        owned_indices(s, owner, method, n - 1)
    }
}

/// The methods named `method` of the class `owner`.
fn owned_methods(symbols: &Vec<CodeNode>, owner: &str, method: &str) -> (res: Vec<usize>)
    ensures
        res@ == owned_indices(symbols@, owner@, method@, symbols@.len() as int),
        forall|k: int| 0 <= k < res@.len() ==> res@[k] < symbols@.len(),
{
    let mut out: Vec<usize> = Vec::new();
    let mut i: usize = 0;
    while i < symbols.len()
        invariant
            i <= symbols@.len(),
            out@ == owned_indices(symbols@, owner@, method@, i as int),
            forall|k: int| 0 <= k < out@.len() ==> out@[k] < i,
        decreases symbols.len() - i,
    {
        let n = &symbols[i];
        let owned = match &n.owner {
            Some(o) => str_equal(o.as_str(), owner),
            None => false,
        };
        if owned && str_equal(n.name.as_str(), method) && n.kind == NodeKind::Method {
            out.push(i);
        }
        i = i + 1;
    }
    out
}

/// The class and method a route's controller names: the parts around its first `::`,
/// or the whole and `__invoke`.
pub open spec fn controller_parts(c: Seq<char>) -> (Seq<char>, Seq<char>) {
    match crate::text::first_occurrence_from(c, seq![':', ':'], 0) {
        Some(i) => (c.subrange(0, i), c.subrange(i + 2, c.len() as int)),
        None => (c, "__invoke"@),
    }
}

/// The methods a route's controller can name: those of the class (namespace dropped).
pub open spec fn controller_handlers(symbols: Seq<CodeNode>, c: Seq<char>) -> Seq<usize> {
    let parts = controller_parts(c);
    owned_indices(symbols, crate::line_analysis::after_last(parts.0, seq!['\\']), parts.1, symbols.len() as int)
}

/// The name of the endpoint of a route: its methods in uppercase (`ANY` when absent), a
/// space and its path.
pub open spec fn block_route_name(methods: Option<String>, path: Seq<char>) -> Seq<char> {
    (match methods {
        Some(m) => m@,
        None => "ANY"@,
    }).map_values(|ch: char| ascii_upper(ch)) + " "@ + path
}

/// The route's controller names exactly one method.
pub open spec fn block_linked(symbols: Seq<CodeNode>, controller: Option<String>) -> bool {
    controller matches Some(c) && controller_handlers(symbols, c@).len() == 1
}

/// Emits the route of a finished block, tied to its controller method when it is unique.
fn flush_block(file: &ProjectFile, block: RouteBlock, symbols: &Vec<CodeNode>, output: &mut FrameworkAnalysis)
    ensures
        final(output).nodes@.len() >= old(output).nodes@.len(),
        final(output).nodes@.subrange(0, old(output).nodes@.len() as int) == old(output).nodes@,
        forall|k: int| old(output).nodes@.len() <= k < final(output).nodes@.len() ==> (#[trigger] final(output).nodes@[k]).path
            == Some(file.path),
        block.path is None ==> final(output).nodes@ == old(output).nodes@ && final(output).edges@ == old(output).edges@,
        block.path is Some ==> final(output).nodes@.len() == old(output).nodes@.len() + 1,
        block.path is Some ==> final(output).nodes@.last().kind == NodeKind::ApiEndpoint,
        block.path matches Some(p) ==> final(output).nodes@.last().id@ == virtual_id(
            NodeKind::ApiEndpoint,
            file.path@,
            block.line as nat,
            block_route_name(block.methods, p@),
        ),
        block.path is Some && block_linked(symbols@, block.controller) ==> final(output).edges@.len() == old(
            output,
        ).edges@.len() + 1 && final(output).edges@.drop_last() == old(output).edges@ && final(output).edges@.last().source_id
            == final(output).nodes@.last().id && final(output).edges@.last().relation == RelationKind::HandledBy
            && final(output).edges@.last().target_id == symbols@[controller_handlers(
            symbols@,
            block.controller->0@,
        )[0] as int].id,
        block.path is Some && !block_linked(symbols@, block.controller) ==> final(output).edges@ == old(output).edges@,
{
    let path = match block.path {
        Some(p) => p,
        None => {
            return;
        },
    };
    let method = match block.methods {
        Some(m) => m,
        None => String::from_str("ANY"),
    };
    let mut node = virtual_node(file, NodeKind::ApiEndpoint, cat3(uppercase(method.as_str()).as_str(), " ", path.as_str()), block.line);
    match block.controller {
        Some(controller) => {
            let c = chars_of(controller.as_str());
            let (owner_raw, method_name) = match crate::text::find_str(&c, &chars_of("::")) {
                Some(i) => {
                    proof {
                        reveal_strlit("::");
                        assert("::"@ =~= seq![':', ':']);
                    }
                    let n = c.len();
                    (string_of(&slice_chars(&c, 0, i)), string_of(&slice_chars(&c, i + 2, n)))
                },
                None => (controller.clone(), String::from_str("__invoke")),
            };
            proof {
                reveal_strlit("::");
                assert("::"@ =~= seq![':', ':']);
                assert(owner_raw@ == controller_parts(controller@).0);
                assert(method_name@ == controller_parts(controller@).1);
            }
            let owner = short_name(owner_raw.as_str());
            let handlers = owned_methods(symbols, owner.as_str(), method_name.as_str());
            assert(handlers@ == controller_handlers(symbols@, controller@));
            if handlers.len() == 1 {
                node.owner = Some(owner);
                output.edges.push(CodeEdge::new(node.id.clone(), symbols[handlers[0]].id.clone(), RelationKind::HandledBy));
            }
        },
        None => {},
    }
    output.nodes.push(node);
}

/// A quote or a bracket, which a YAML scalar loses at either end.
pub open spec fn is_yaml_mark(c: char) -> bool {
    c == '\'' || c == '"' || c == '[' || c == ']'
}

/// `s` without the quotes and brackets it starts with.
pub open spec fn strip_leading_marks(s: Seq<char>) -> Seq<char>
    decreases s.len(),
{
    if s.len() > 0 && is_yaml_mark(s[0]) { strip_leading_marks(s.drop_first()) } else { s }
}

/// `s` without the quotes and brackets it ends with.
pub open spec fn strip_trailing_marks(s: Seq<char>) -> Seq<char>
    decreases s.len(),
{
    if s.len() > 0 && is_yaml_mark(s.last()) { strip_trailing_marks(s.drop_last()) } else { s }
}

/// `s` trimmed, then without quotes and brackets at either end.
#[verifier::rlimit(40)]
fn yaml_scalar(s: &str) -> (res: String)
    ensures
        res@ == strip_trailing_marks(strip_leading_marks(crate::text::spec_trim(s@))),
{
    let t = crate::text::trim(&chars_of(s));
    let n = t.len();
    let mut a: usize = 0;
    assert(t@.subrange(0, n as int) =~= t@);
    while a < t.len() && (t[a] == '\'' || t[a] == '"' || t[a] == '[' || t[a] == ']')
        invariant
            a <= t@.len(),
            n == t@.len(),
            strip_leading_marks(t@) == strip_leading_marks(t@.subrange(a as int, n as int)),
        decreases t.len() - a,
    {
        assert(t@.subrange(a as int, n as int).drop_first() =~= t@.subrange(a + 1, n as int));
        a = a + 1;
    }
    let ghost lead = t@.subrange(a as int, n as int);
    assert(lead.subrange(0, (n - a) as int) =~= lead);
    let mut b: usize = t.len();
    while b > a && (t[b - 1] == '\'' || t[b - 1] == '"' || t[b - 1] == '[' || t[b - 1] == ']')
        invariant
            a <= b <= t@.len(),
            n == t@.len(),
            lead == t@.subrange(a as int, n as int),
            strip_trailing_marks(lead) == strip_trailing_marks(t@.subrange(a as int, b as int)),
        decreases b,
    {
        assert(t@.subrange(a as int, b as int).drop_last() =~= t@.subrange(a as int, b - 1));
        b = b - 1;
    }
    string_of(&slice_chars(&t, a, b))
}

/// The pattern of a top-level key of a YAML routing file.
pub const PATTERN_YAML_KEY: &'static str = r"^([A-Za-z0-9_.-]+):\s*$";

/// The pattern of a route's property in a YAML routing file.
pub const PATTERN_YAML_VALUE: &'static str = r"^\s+(path|controller|_controller|methods):\s*(.+?)\s*$";

/// A route block as read so far: name, path, controller, methods, line.
pub type YamlBlock = (Seq<char>, Option<Seq<char>>, Option<Seq<char>>, Option<Seq<char>>, int);

/// The route block as plain values.
spec fn block_view(b: RouteBlock) -> YamlBlock {
    (
        b.name@,
        match b.path { Some(p) => Some(p@), None => None },
        match b.controller { Some(c) => Some(c@), None => None },
        match b.methods { Some(m) => Some(m@), None => None },
        b.line as int,
    )
}

/// The id of the route a finished block declares, if it has a path.
pub open spec fn yaml_flush_ids(b: YamlBlock, path: Seq<char>) -> Seq<Seq<char>> {
    if b.0.len() > 0 && b.1 is Some {
        seq![virtual_id(
            NodeKind::ApiEndpoint,
            path,
            b.4 as nat,
            (match b.3 { Some(m) => m, None => "ANY"@ }).map_values(|ch: char| ascii_upper(ch)) + " "@ + b.1->0,
        )]
    } else {
        Seq::empty()
    }
}

/// The key a line of a YAML routing file opens, if any.
pub open spec fn yaml_key(line: Seq<char>) -> Option<Seq<char>> {
    match crate::patterns::spec_regex_captures(PATTERN_YAML_KEY@, line) {
        Some(f) => if f.len() > 0 && f[0].3.len() > 0 { f[0].3[0] } else { None },
        None => None,
    }
}

/// The property and value a line of a YAML routing file sets, if any.
pub open spec fn yaml_value(line: Seq<char>) -> Option<(Seq<char>, Seq<char>)> {
    match crate::patterns::spec_regex_captures(PATTERN_YAML_VALUE@, line) {
        Some(f) => if f.len() > 0 && f[0].3.len() > 1 && f[0].3[0] is Some && f[0].3[1] is Some {
            Some((f[0].3[0]->0, f[0].3[1]->0))
        } else {
            None
        },
        None => None,
    }
}

/// The block read so far and the ids of the routes of the blocks finished, after the lines.
pub open spec fn yaml_state(path: Seq<char>, lines: Seq<Seq<char>>) -> (YamlBlock, Seq<Seq<char>>)
    decreases lines.len(),
{
    if lines.len() == 0 {
        ((Seq::empty(), None, None, None, 0), Seq::empty())
    } else {
        let st = yaml_state(path, lines.drop_last());
        let b = st.0;
        let line = lines.last();
        match yaml_key(line) {
            Some(name) => (
                (name, None, None, None, lines.len() as int),
                st.1 + if b.0.len() > 0 { yaml_flush_ids(b, path) } else { Seq::empty() },
            ),
            None => match yaml_value(line) {
                Some(kv) => {
                    let raw = strip_trailing_marks(strip_leading_marks(crate::text::spec_trim(kv.1)));
                    if kv.0 == "path"@ {
                        ((b.0, Some(raw), b.2, b.3, b.4), st.1)
                    } else if kv.0 == "controller"@ || kv.0 == "_controller"@ {
                        ((b.0, b.1, Some(raw), b.3, b.4), st.1)
                    } else if kv.0 == "methods"@ {
                        let first = match crate::text::index_of(raw, ',') {
                            Some(c) => raw.subrange(0, c),
                            None => raw,
                        };
                        ((b.0, b.1, b.2, Some(crate::text::spec_trim(first)), b.4), st.1)
                    } else {
                        st
                    }
                },
                None => st,
            },
        }
    }
}

/// The ids of the routes a YAML routing file declares, block after block.
pub open spec fn yaml_route_ids(path: Seq<char>, source: Seq<char>) -> Seq<Seq<char>> {
    let st = yaml_state(path, crate::text::spec_lines(source));
    st.1 + if st.0.0.len() > 0 { yaml_flush_ids(st.0, path) } else { Seq::empty() }
}

/// Routes declared in a YAML routing file: one block per top-level key.
pub fn analyze_yaml_routes(file: &ProjectFile, source: &str, symbols: &Vec<CodeNode>, output: &mut FrameworkAnalysis)
    ensures
        final(output).nodes@.len() >= old(output).nodes@.len(),
        forall|k: int| old(output).nodes@.len() <= k < final(output).nodes@.len() ==> (#[trigger] final(output).nodes@[k]).path
            == Some(file.path),
        final(output).nodes@.subrange(0, old(output).nodes@.len() as int) == old(output).nodes@,
        ids_after(final(output).nodes@, old(output).nodes@.len() as int) == yaml_route_ids(file.path@, source@),
{
    let lines = crate::text::split_lines(&chars_of(source));
    let ghost lv = crate::text::spec_lines(source@);
    let ghost start_nodes = output.nodes@.len();
    let ghost nodes0 = output.nodes@;
    assert(output.nodes@.subrange(0, start_nodes as int) =~= nodes0);
    assert(ids_after(output.nodes@, start_nodes as int) =~= Seq::<Seq<char>>::empty());
    let mut block = empty_block();
    assert(block_view(block) == (Seq::<char>::empty(), Option::<Seq<char>>::None, Option::<Seq<char>>::None, Option::<Seq<char>>::None, 0int));
    assert(lv.subrange(0, 0) =~= Seq::<Seq<char>>::empty());
    let mut index: usize = 0;
    while index < lines.len()
        invariant
            index <= lines@.len(),
            lines@.len() == lv.len(),
            lv == crate::text::spec_lines(source@),
            forall|j: int| 0 <= j < lines@.len() ==> (#[trigger] lines@[j])@ == lv[j],
            output.nodes@.len() >= start_nodes,
            output.nodes@.subrange(0, start_nodes as int) == nodes0,
            block_view(block) == yaml_state(file.path@, lv.subrange(0, index as int)).0,
            ids_after(output.nodes@, start_nodes as int) == yaml_state(file.path@, lv.subrange(0, index as int)).1,
            forall|k: int| start_nodes <= k < output.nodes@.len() ==> (#[trigger] output.nodes@[k]).path == Some(file.path),
        decreases lines.len() - index,
    {
        let ghost pre = lv.subrange(0, index + 1);
        assert(pre.drop_last() =~= lv.subrange(0, index as int));
        assert(pre.last() == lines@[index as int]@);
        let ghost st = yaml_state(file.path@, lv.subrange(0, index as int));
        let ghost nb = output.nodes@;
        let line = string_of(&lines[index]);
        let key = match regex_captures(PATTERN_YAML_KEY, line.as_str()) {
            Some(found) => if found.len() > 0 {
                proof {
                    if found@[0].groups@.len() > 0 {
                        assert(crate::patterns::capture_view(found@[0]).3[0] == match found@[0].groups@[0] {
                            Some(t) => Some(t@),
                            None => None,
                        });
                    }
                }
                group(&found[0], 0)
            } else {
                None
            },
            None => None,
        };
        assert(match key { Some(k) => yaml_key(line@) == Some(k@), None => yaml_key(line@) is None });
        match key {
            Some(name) => {
                if block.name.unicode_len() > 0 {
                    let finished = block;
                    let ghost before = output.nodes@;
                    flush_block(file, finished, symbols, output);
                    proof {
                        assert forall|k: int| start_nodes <= k < output.nodes@.len() implies (#[trigger] output.nodes@[k]).path
                            == Some(file.path) by {
                            if k < before.len() {
                                assert(output.nodes@[k] == output.nodes@.subrange(0, before.len() as int)[k]);
                            }
                        }
                        assert(output.nodes@.subrange(0, start_nodes as int) =~= output.nodes@.subrange(0, before.len() as int).subrange(0, start_nodes as int));
                        if finished.path is Some {
                            assert(output.nodes@ =~= before.push(output.nodes@.last()));
                            assert(ids_after(output.nodes@, start_nodes as int) =~= ids_after(before, start_nodes as int).push(output.nodes@.last().id@));
                        }
                        assert(ids_after(output.nodes@, start_nodes as int) =~= st.1 + yaml_flush_ids(st.0, file.path@));
                    }
                } else {
                    assert(st.1 + Seq::<Seq<char>>::empty() =~= st.1);
                }
                block = empty_block();
                block.name = name;
                block.line = index + 1;
            },
            None => {
                let value = match regex_captures(PATTERN_YAML_VALUE, line.as_str()) {
                    Some(found) => if found.len() > 0 {
                        proof {
                            if found@[0].groups@.len() > 0 {
                                assert(crate::patterns::capture_view(found@[0]).3[0] == match found@[0].groups@[0] {
                                    Some(t) => Some(t@),
                                    None => None,
                                });
                            }
                            if found@[0].groups@.len() > 1 {
                                assert(crate::patterns::capture_view(found@[0]).3[1] == match found@[0].groups@[1] {
                                    Some(t) => Some(t@),
                                    None => None,
                                });
                            }
                        }
                        match (group(&found[0], 0), group(&found[0], 1)) {
                            (Some(k), Some(v)) => Some((k, v)),
                            _ => None,
                        }
                    } else {
                        None
                    },
                    None => None,
                };
                assert(match value { Some(kv) => yaml_value(line@) == Some((kv.0@, kv.1@)), None => yaml_value(line@) is None });
                match value {
                    Some((k, v)) => {
                        let raw = yaml_scalar(v.as_str());
                        if str_equal(k.as_str(), "path") {
                            block.path = Some(raw);
                        } else if str_equal(k.as_str(), "controller") || str_equal(k.as_str(), "_controller") {
                            block.controller = Some(raw);
                        } else if str_equal(k.as_str(), "methods") {
                            let r = chars_of(raw.as_str());
                            let first = match crate::text::find_char(&r, ',') {
                                Some(c) => {
                                    proof {
                                        crate::text::lemma_index_of_from_bounds(r@, ',', 0);
                                        assert(crate::text::index_of_from(r@, ',', 0) == Some(c as int));
                                    }
                                    slice_chars(&r, 0, c)
                                },
                                None => {
                                    assert(r@.subrange(0, r@.len() as int) =~= r@);
                                    slice_chars(&r, 0, r.len())
                                },
                            };
                            block.methods = Some(string_of(&crate::text::trim(&first)));
                        }
                    },
                    None => {},
                }
            },
        }
        index = index + 1;
    }
    assert(lv.subrange(0, lv.len() as int) =~= lv);
    let ghost st = yaml_state(file.path@, lv);
    if block.name.unicode_len() > 0 {
        let ghost before = output.nodes@;
        let ghost bp = block.path;
        flush_block(file, block, symbols, output);
        proof {
            assert forall|k: int| start_nodes <= k < output.nodes@.len() implies (#[trigger] output.nodes@[k]).path
                == Some(file.path) by {
                if k < before.len() {
                    assert(output.nodes@[k] == output.nodes@.subrange(0, before.len() as int)[k]);
                }
            }
            assert(output.nodes@.subrange(0, start_nodes as int) =~= output.nodes@.subrange(0, before.len() as int).subrange(0, start_nodes as int));
            if bp is Some {
                assert(output.nodes@ =~= before.push(output.nodes@.last()));
                assert(ids_after(output.nodes@, start_nodes as int) =~= ids_after(before, start_nodes as int).push(output.nodes@.last().id@));
            }
            assert(ids_after(output.nodes@, start_nodes as int) =~= st.1 + yaml_flush_ids(st.0, file.path@));
        }
    } else {
        assert(st.1 + Seq::<Seq<char>>::empty() =~= st.1);
    }
}

/// Whether `path` is one of `paths`.
fn listed_path(paths: &Vec<String>, path: &str) -> (res: bool)
    ensures
        res == crate::text::views(paths@).contains(path@),
{
    let mut k: usize = 0;
    while k < paths.len()
        invariant
            k <= paths@.len(),
            forall|i: int| 0 <= i < k ==> paths@[i]@ != path@,
        decreases paths.len() - k,
    {
        if str_equal(paths[k].as_str(), path) {
            assert(crate::text::views(paths@)[k as int] == path@);
            return true;
        }
        k = k + 1;
    }
    proof {
        if crate::text::views(paths@).contains(path@) {
            let i = choose|i: int| 0 <= i < crate::text::views(paths@).len() && crate::text::views(paths@)[i] == path@;
            assert(paths@[i]@ == path@);
        }
    }
    false
}

/// `i` is the narrowest method of the file around the line, the first among equally
/// narrow ones.
pub open spec fn narrowest_at(s: Seq<CodeNode>, path: Seq<char>, line: int, i: int) -> bool {
    &&& 0 <= i < s.len()
    &&& spans_line(s[i], path, line)
    &&& forall|k: int| 0 <= k < s.len() && spans_line(s[k], path, line) ==> span_width(s[i]) <= span_width(#[trigger] s[k])
    &&& forall|k: int| 0 <= k < i && spans_line(s[k], path, line) ==> span_width(s[i]) < span_width(#[trigger] s[k])
}

/// The narrowest method of the file around the line, if one spans it.
pub open spec fn narrowest_method(s: Seq<CodeNode>, path: Seq<char>, line: int) -> Option<int> {
    if exists|i: int| #[trigger] narrowest_at(s, path, line, i) {
        Some(choose|i: int| #[trigger] narrowest_at(s, path, line, i))
    } else {
        None
    }
}

proof fn lemma_narrowest_unique(s: Seq<CodeNode>, path: Seq<char>, line: int, i: int, j: int)
    requires
        narrowest_at(s, path, line, i),
        narrowest_at(s, path, line, j),
    ensures
        i == j,
{
    if i < j {
        assert(span_width(s[j]) < span_width(s[i]));
        assert(span_width(s[i]) <= span_width(s[j]));
    } else if j < i {
        assert(span_width(s[i]) < span_width(s[j]));
        assert(span_width(s[j]) <= span_width(s[i]));
    }
}

/// The pattern of rendered Twig templates.
pub const PATTERN_TWIG: &'static str = r#"(?:->)?render\s*\(\s*['\"]([^'\"]+\.twig)['\"]"#;

/// The node ids known and the edges (their ends) added after the matches: each rendered
/// template that exists on disk becomes a node once, tied to the method around its call.
pub open spec fn template_state(
    s: Seq<CodeNode>,
    path: Seq<char>,
    source: Seq<char>,
    on_disk: Seq<Seq<char>>,
    ids: Seq<Seq<char>>,
    cs: Seq<crate::patterns::CaptureView>,
) -> (Seq<Seq<char>>, Seq<(Seq<char>, Seq<char>)>)
    decreases cs.len(),
{
    if cs.len() == 0 {
        (ids, Seq::empty())
    } else {
        let st = template_state(s, path, source, on_disk, ids, cs.drop_last());
        let c = cs.last();
        if c.3.len() > 0 && c.3[0] is Some && on_disk.contains("templates/"@ + c.3[0]->0) {
            let id = "template:"@ + ("templates/"@ + c.3[0]->0);
            let ids2 = if st.0.contains(id) { st.0 } else { st.0.push(id) };
            match narrowest_method(s, path, spec_line_at(source, c.0)) {
                Some(i) => (ids2, st.1.push((s[i].id@, id))),
                None => (ids2, st.1),
            }
        } else {
            st
        }
    }
}

/// The node ids known and the edges added by the rendered templates of a source.
pub open spec fn templates_found(
    s: Seq<CodeNode>,
    path: Seq<char>,
    source: Seq<char>,
    on_disk: Seq<Seq<char>>,
    ids: Seq<Seq<char>>,
) -> (Seq<Seq<char>>, Seq<(Seq<char>, Seq<char>)>) {
    match crate::patterns::spec_regex_captures(PATTERN_TWIG@, source) {
        Some(cs) => template_state(s, path, source, on_disk, ids, cs),
        None => (ids, Seq::empty()),
    }
}

/// The ids of the nodes.
pub open spec fn node_ids(v: Seq<CodeNode>) -> Seq<Seq<char>> {
    v.map_values(|n: CodeNode| n.id@)
}

/// Twig templates rendered by a controller, each tied to the method that renders it.
/// `on_disk` lists the project's files, relative to the root.
pub fn analyze_templates(file: &ProjectFile, source: &str, symbols: &Vec<CodeNode>, on_disk: &Vec<String>, output: &mut FrameworkAnalysis)
    ensures
        forall|k: int| old(output).edges@.len() <= k < final(output).edges@.len() ==> (#[trigger] final(output).edges@[k]).relation
            == RelationKind::Renders,
        final(output).edges@.len() >= old(output).edges@.len(),
        final(output).nodes@.len() >= old(output).nodes@.len(),
        final(output).nodes@.subrange(0, old(output).nodes@.len() as int) == old(output).nodes@,
        node_ids(final(output).nodes@) == templates_found(symbols@, file.path@, source@, views(on_disk@), node_ids(old(output).nodes@)).0,
        final(output).edges@.subrange(0, old(output).edges@.len() as int) == old(output).edges@,
        edge_ends_after(final(output).edges@, old(output).edges@.len() as int) == templates_found(
            symbols@,
            file.path@,
            source@,
            views(on_disk@),
            node_ids(old(output).nodes@),
        ).1,
{
    let ghost start_edges = output.edges@.len();
    let ghost start_nodes = output.nodes@.len();
    let ghost nodes0 = output.nodes@;
    let ghost edges0 = output.edges@;
    let ghost ids0 = node_ids(output.nodes@);
    assert(output.nodes@.subrange(0, start_nodes as int) =~= nodes0);
    assert(output.edges@.subrange(0, start_edges as int) =~= edges0);
    assert(edge_ends_after(output.edges@, start_edges as int) =~= Seq::<(Seq<char>, Seq<char>)>::empty());
    match regex_captures(PATTERN_TWIG, source) {
        Some(matches) => {
            let ghost cv = matches@.map_values(|x: RegexCapture| crate::patterns::capture_view(x));
            let mut m: usize = 0;
            assert(cv.subrange(0, 0) =~= Seq::<crate::patterns::CaptureView>::empty());
            while m < matches.len()
                invariant
                    m <= matches@.len(),
                    cv == matches@.map_values(|x: RegexCapture| crate::patterns::capture_view(x)),
                    output.edges@.len() >= start_edges,
                    output.nodes@.len() >= start_nodes,
                    output.nodes@.subrange(0, start_nodes as int) == nodes0,
                    output.edges@.subrange(0, start_edges as int) == edges0,
                    ids0 == node_ids(nodes0),
                    (node_ids(output.nodes@), edge_ends_after(output.edges@, start_edges as int)) == template_state(
                        symbols@,
                        file.path@,
                        source@,
                        views(on_disk@),
                        ids0,
                        cv.subrange(0, m as int),
                    ),
                    forall|k: int| 0 <= k < matches@.len() ==> (#[trigger] matches@[k]).start <= matches@[k].end
                        && matches@[k].end <= vstd::utf8::encode_utf8(source@).len(),
                    forall|k: int| start_edges <= k < output.edges@.len() ==> (#[trigger] output.edges@[k]).relation
                        == RelationKind::Renders,
                decreases matches.len() - m,
            {
                let c = &matches[m];
                let ghost pre = cv.subrange(0, m + 1);
                assert(pre.drop_last() =~= cv.subrange(0, m as int));
                assert(pre.last() == crate::patterns::capture_view(matches@[m as int]));
                proof {
                    if matches@[m as int].groups@.len() > 0 {
                        assert(pre.last().3[0] == match matches@[m as int].groups@[0] { Some(t) => Some(t@), None => None });
                    }
                }
                let ghost nb = output.nodes@;
                let ghost eb = output.edges@;
                match group(c, 0) {
                    Some(name) => {
                        let line = line_at(source, c.start);
                        let template_path = concat_str("templates/", name.as_str());
                        if listed_path(on_disk, template_path.as_str()) {
                            let id = concat_str("template:", template_path.as_str());
                            let mut known = false;
                            let mut n: usize = 0;
                            while n < output.nodes.len() && !known
                                invariant
                                    n <= output.nodes@.len(),
                                    known ==> node_ids(output.nodes@).contains(id@),
                                    !known ==> forall|q: int| 0 <= q < n ==> output.nodes@[q].id@ != id@,
                                decreases output.nodes.len() - n,
                            {
                                if str_equal(output.nodes[n].id.as_str(), id.as_str()) {
                                    assert(node_ids(output.nodes@)[n as int] == id@);
                                    known = true;
                                }
                                n = n + 1;
                            }
                            proof {
                                if !known && node_ids(output.nodes@).contains(id@) {
                                    let q = choose|q: int| 0 <= q < node_ids(output.nodes@).len() && node_ids(output.nodes@)[q] == id@;
                                    assert(output.nodes@[q].id@ == id@);
                                }
                            }
                            if !known {
                                output.nodes.push(CodeNode {
                                    id: id.clone(),
                                    kind: NodeKind::Template,
                                    name: name.clone(),
                                    path: Some(template_path.clone()),
                                    language: None,
                                    start_line: Some(1),
                                    end_line: None,
                                    owner: None,
                                    source_scope: SourceScope::Project,
                                });
                            }
                            let ghost nb2 = output.nodes@;
                            assert(node_ids(nb2) =~= if node_ids(nb).contains(id@) { node_ids(nb) } else { node_ids(nb).push(id@) });
                            assert(output.nodes@.subrange(0, start_nodes as int) =~= nb.subrange(0, start_nodes as int));
                            let ghost idv = id@;
                            match enclosing_method(symbols, file.path.as_str(), line) {
                                Some(caller) => {
                                    proof {
                                        assert(narrowest_at(symbols@, file.path@, line as int, caller as int));
                                        let w = choose|i: int| #[trigger] narrowest_at(symbols@, file.path@, line as int, i);
                                        lemma_narrowest_unique(symbols@, file.path@, line as int, w, caller as int);
                                    }
                                    output.edges.push(CodeEdge::new(symbols[caller].id.clone(), id, RelationKind::Renders));
                                    assert(edge_ends_after(output.edges@, start_edges as int) =~= edge_ends_after(eb, start_edges as int).push(
                                        (symbols@[caller as int].id@, idv),
                                    ));
                                    assert(output.edges@.subrange(0, start_edges as int) =~= eb.subrange(0, start_edges as int));
                                },
                                None => {
                                    proof {
                                        if exists|i: int| #[trigger] narrowest_at(symbols@, file.path@, line as int, i) {
                                            let w = choose|i: int| #[trigger] narrowest_at(symbols@, file.path@, line as int, i);
                                            assert(!spans_line(symbols@[w], file.path@, line as int));
                                        }
                                    }
                                },
                            }
                        }
                    },
                    None => {},
                }
                m = m + 1;
            }
            assert(cv.subrange(0, cv.len() as int) =~= cv);
        },
        None => {},
    }
}

/// A class of the file counts towards the classes of the file.
proof fn lemma_class_counted(s: Seq<CodeNode>, path: Seq<char>, i: int)
    requires
        0 <= i < s.len(),
        class_of_file(s[i], path),
    ensures
        count_classes_of_file(s, path) >= 1,
    decreases s.len(),
{
    if i < s.len() - 1 {
        lemma_class_counted(s.drop_last(), path, i);
    }
}

/// When the file declares one class, any two of its classes are the same.
proof fn lemma_single_class(s: Seq<CodeNode>, path: Seq<char>, i: int, j: int)
    requires
        count_classes_of_file(s, path) == 1,
        0 <= i < s.len(),
        0 <= j < s.len(),
        class_of_file(s[i], path),
        class_of_file(s[j], path),
    ensures
        i == j,
    decreases s.len(),
{
    if i != j {
        let last = s.len() - 1;
        if i == last || j == last {
            let other = if i == last { j } else { i };
            lemma_class_counted(s.drop_last(), path, other);
        } else {
            if class_of_file(s.last(), path) {
                lemma_class_counted(s.drop_last(), path, i);
            } else {
                lemma_single_class(s.drop_last(), path, i, j);
            }
        }
    }
}

/// The file is a console command: it carries `#[AsCommand` or lies under `/Command/`.
pub open spec fn command_file(path: Seq<char>, source: Seq<char>) -> bool {
    seq_contains(source, "#[AsCommand"@) || seq_contains(spec_replace_char(path, '\\', '/'), "/Command/"@)
}

/// The method is the `execute` method of the file's class named `class_name`.
pub open spec fn execute_of(n: CodeNode, path: Seq<char>, class_name: Seq<char>) -> bool {
    (n.path matches Some(p) && p@ == path) && (n.owner matches Some(o) && o@ == class_name) && n.name@ == "execute"@
}

/// Position of the first `execute` method of the class, from `i` on.
pub open spec fn first_execute(s: Seq<CodeNode>, path: Seq<char>, class_name: Seq<char>, i: int) -> Option<int>
    decreases s.len() - i,
{
    if i < 0 || i >= s.len() {
        None
    } else if execute_of(s[i], path, class_name) {
        Some(i)
    } else {
        first_execute(s, path, class_name, i + 1)
    }
}

/// The command's entry: the file's one class `c` and its first `execute` method `i`.
pub open spec fn command_entry(s: Seq<CodeNode>, path: Seq<char>, c: int, i: int) -> bool {
    &&& 0 <= c < s.len()
    &&& class_of_file(s[c], path)
    &&& first_execute(s, path, s[c].name@, 0) == Some(i)
}

/// The file declares one class, and that class has an `execute` method.
pub open spec fn command_has_entry(s: Seq<CodeNode>, path: Seq<char>) -> bool {
    count_classes_of_file(s, path) == 1 && exists|c: int| 0 <= c < s.len() && class_of_file(#[trigger] s[c], path)
        && first_execute(s, path, s[c].name@, 0) is Some
}

/// The entry point of a console command: its class leads to its `execute` method.
pub fn analyze_command(file: &ProjectFile, source: &str, symbols: &Vec<CodeNode>, output: &mut FrameworkAnalysis)
    ensures
        final(output).nodes@ == old(output).nodes@,
        final(output).edges@.len() <= old(output).edges@.len() + 1,
        forall|k: int| old(output).edges@.len() <= k < final(output).edges@.len() ==> (#[trigger] final(output).edges@[k]).relation
            == RelationKind::EntryPoint,
        !(command_file(file.path@, source@) && command_has_entry(symbols@, file.path@)) ==> final(output).edges@ == old(output).edges@,
        command_file(file.path@, source@) && command_has_entry(symbols@, file.path@) ==> {
            &&& final(output).edges@.len() == old(output).edges@.len() + 1
            &&& final(output).edges@.drop_last() == old(output).edges@
            &&& exists|c: int, i: int| #[trigger] command_entry(symbols@, file.path@, c, i)
                && final(output).edges@.last().source_id == symbols@[c].id
                && final(output).edges@.last().target_id == symbols@[i].id
        },
{
    let normalized = crate::text::replace_char(&chars_of(file.path.as_str()), '\\', '/');
    if !contains(&chars_of(source), &chars_of("#[AsCommand")) && !contains(&normalized, &chars_of("/Command/")) {
        return;
    }
    let class = match class_in_file(symbols, file.path.as_str()) {
        Some(c) => c,
        None => {
            return;
        },
    };
    let class_name = symbols[class].name.as_str();
    proof {
        assert forall|c: int| 0 <= c < symbols@.len() && class_of_file(#[trigger] symbols@[c], file.path@) implies c == class by {
            lemma_single_class(symbols@, file.path@, c, class as int);
        }
    }
    let mut i: usize = 0;
    while i < symbols.len()
        invariant
            i <= symbols@.len(),
            class < symbols@.len(),
            class_of_file(symbols@[class as int], file.path@),
            class_name@ == symbols@[class as int].name@,
            command_file(file.path@, source@),
            count_classes_of_file(symbols@, file.path@) == 1,
            output.nodes@ == old(output).nodes@,
            output.edges@ == old(output).edges@,
            first_execute(symbols@, file.path@, class_name@, 0) == first_execute(symbols@, file.path@, class_name@, i as int),
        decreases symbols.len() - i,
    {
        let n = &symbols[i];
        let in_file = match &n.path {
            Some(p) => str_equal(p.as_str(), file.path.as_str()),
            None => false,
        };
        let owned = match &n.owner {
            Some(o) => str_equal(o.as_str(), class_name),
            None => false,
        };
        if in_file && owned && str_equal(n.name.as_str(), "execute") {
            output.edges.push(CodeEdge::new(symbols[class].id.clone(), n.id.clone(), RelationKind::EntryPoint));
            assert(command_entry(symbols@, file.path@, class as int, i as int));
            assert(output.edges@.drop_last() =~= old(output).edges@);
            return;
        }
        i = i + 1;
    }
}

/// A class named `name` counts towards the classes so named.
proof fn lemma_named_counted(s: Seq<CodeNode>, name: Seq<char>, i: int)
    requires
        0 <= i < s.len(),
        class_named(s[i], name),
    ensures
        count_classes_named(s, name) >= 1,
    decreases s.len(),
{
    if i < s.len() - 1 {
        lemma_named_counted(s.drop_last(), name, i);
    }
}

/// When one class has the name, any two classes with it are the same.
proof fn lemma_single_named(s: Seq<CodeNode>, name: Seq<char>, i: int, j: int)
    requires
        count_classes_named(s, name) == 1,
        0 <= i < s.len(),
        0 <= j < s.len(),
        class_named(s[i], name),
        class_named(s[j], name),
    ensures
        i == j,
    decreases s.len(),
{
    if i != j {
        let last = s.len() - 1;
        if i == last || j == last {
            let other = if i == last { j } else { i };
            lemma_named_counted(s.drop_last(), name, other);
        } else {
            if class_named(s.last(), name) {
                lemma_named_counted(s.drop_last(), name, i);
            } else {
                lemma_single_named(s.drop_last(), name, i, j);
            }
        }
    }
}

/// The class of the file, when it declares one.
pub open spec fn file_class(s: Seq<CodeNode>, path: Seq<char>) -> int {
    choose|c: int| 0 <= c < s.len() && class_of_file(s[c], path)
}

/// The class with the name (namespace dropped), when there is one.
pub open spec fn named_class(s: Seq<CodeNode>, raw: Seq<char>) -> int {
    choose|c: int| 0 <= c < s.len() && class_named(s[c], crate::line_analysis::after_last(raw, seq!['\\']))
}

/// Exactly one class has the name (namespace dropped).
pub open spec fn unique_name(s: Seq<CodeNode>, raw: Seq<char>) -> bool {
    count_classes_named(s, crate::line_analysis::after_last(raw, seq!['\\'])) == 1
}

/// The pattern of a message handler's `__invoke` parameter.
pub const PATTERN_MESSAGE: &'static str = r"function\s+__invoke\s*\(\s*([A-Za-z_\\][A-Za-z0-9_\\]*)\s+\$";

/// The pattern of the event classes a listener names.
pub const PATTERN_EVENT: &'static str = r"(?:event\s*:\s*)?([A-Za-z_\\][A-Za-z0-9_\\]*)::class";

/// The edge (its ends) from the message class a handler's `__invoke` takes to the handler.
pub open spec fn message_edges(s: Seq<CodeNode>, path: Seq<char>, source: Seq<char>) -> Seq<(Seq<char>, Seq<char>)> {
    if !seq_contains(source, "#[AsMessageHandler"@) {
        Seq::empty()
    } else {
        match crate::patterns::spec_regex_captures(PATTERN_MESSAGE@, source) {
            Some(cs) => if cs.len() > 0 {
                let name = if cs[0].3.len() > 0 && cs[0].3[0] is Some { cs[0].3[0]->0 } else { Seq::empty() };
                if unique_name(s, name) {
                    seq![(s[named_class(s, name)].id@, s[file_class(s, path)].id@)]
                } else {
                    Seq::empty()
                }
            } else {
                Seq::empty()
            },
            None => Seq::empty(),
        }
    }
}

/// The edges (their ends) from each event class the matches name to the listener.
pub open spec fn listener_capture_edges(s: Seq<CodeNode>, path: Seq<char>, cs: Seq<crate::patterns::CaptureView>) -> Seq<(Seq<char>, Seq<char>)>
    decreases cs.len(),
{
    if cs.len() == 0 {
        Seq::empty()
    } else {
        let r = listener_capture_edges(s, path, cs.drop_last());
        let c = cs.last();
        if c.3.len() > 0 && c.3[0] is Some && unique_name(s, c.3[0]->0) && s[named_class(s, c.3[0]->0)].id@
            != s[file_class(s, path)].id@ {
            r.push((s[named_class(s, c.3[0]->0)].id@, s[file_class(s, path)].id@))
        } else {
            r
        }
    }
}

/// The file is an event listener or subscriber.
pub open spec fn listener_file(path: Seq<char>, source: Seq<char>) -> bool {
    seq_contains(source, "#[AsEventListener"@) || seq_contains(source, "EventSubscriberInterface"@) || seq_contains(
        path,
        "EventSubscriber"@,
    )
}

/// The edges (their ends) from the event classes a listener names to it.
pub open spec fn listener_edges(s: Seq<CodeNode>, path: Seq<char>, source: Seq<char>) -> Seq<(Seq<char>, Seq<char>)> {
    if !listener_file(path, source) {
        Seq::empty()
    } else {
        match crate::patterns::spec_regex_captures(PATTERN_EVENT@, source) {
            Some(cs) => listener_capture_edges(s, path, cs),
            None => Seq::empty(),
        }
    }
}

/// Message handlers and event listeners: the message or event class leads to the handler.
pub fn analyze_events_and_messages(file: &ProjectFile, source: &str, symbols: &Vec<CodeNode>, output: &mut FrameworkAnalysis)
    ensures
        final(output).nodes@ == old(output).nodes@,
        final(output).edges@.len() >= old(output).edges@.len(),
        forall|k: int| old(output).edges@.len() <= k < final(output).edges@.len() ==> (#[trigger] final(output).edges@[k]).relation
            == RelationKind::HandledBy || final(output).edges@[k].relation == RelationKind::Listens,
        count_classes_of_file(symbols@, file.path@) != 1 ==> final(output).edges@ == old(output).edges@,
        count_classes_of_file(symbols@, file.path@) == 1 ==> {
            &&& final(output).edges@.subrange(0, old(output).edges@.len() as int) == old(output).edges@
            &&& edge_ends_after(final(output).edges@, old(output).edges@.len() as int) == message_edges(
                symbols@,
                file.path@,
                source@,
            ) + listener_edges(symbols@, file.path@, source@)
        },
{
    let handler = match class_in_file(symbols, file.path.as_str()) {
        Some(h) => h,
        None => {
            return;
        },
    };
    proof {
        let fc = file_class(symbols@, file.path@);
        lemma_single_class(symbols@, file.path@, fc, handler as int);
    }
    assert(handler as int == file_class(symbols@, file.path@));
    let text = chars_of(source);
    let ghost nodes = output.nodes@;
    let ghost start_edges = output.edges@.len();
    let ghost edges0 = output.edges@;
    assert(output.edges@.subrange(0, start_edges as int) =~= edges0);
    assert(edge_ends_after(output.edges@, start_edges as int) =~= Seq::<(Seq<char>, Seq<char>)>::empty());
    assert(PATTERN_MESSAGE@ == PATTERN_MESSAGE@);
    if contains(&text, &chars_of("#[AsMessageHandler")) {
        match regex_captures(PATTERN_MESSAGE, source) {
            Some(found) => {
                if found.len() > 0 {
                    proof {
                        if found@[0].groups@.len() > 0 {
                            assert(crate::patterns::capture_view(found@[0]).3[0] == match found@[0].groups@[0] {
                                Some(t) => Some(t@),
                                None => None,
                            });
                        }
                    }
                    let name = match group(&found[0], 0) {
                        Some(n) => n,
                        None => String::new(),
                    };
                    match unique_class(symbols, name.as_str()) {
                        Some(message) => {
                            proof {
                                let nc = named_class(symbols@, name@);
                                lemma_single_named(symbols@, crate::line_analysis::after_last(name@, seq!['\\']), nc, message as int);
                            }
                            output.edges.push(CodeEdge::new(symbols[message].id.clone(), symbols[handler].id.clone(), RelationKind::HandledBy));
                            assert(output.edges@.subrange(0, start_edges as int) =~= edges0);
                            assert(edge_ends_after(output.edges@, start_edges as int) =~= message_edges(symbols@, file.path@, source@));
                        },
                        None => {},
                    }
                }
            },
            None => {},
        }
    }
    let ghost base = edge_ends_after(output.edges@, start_edges as int);
    assert(base == message_edges(symbols@, file.path@, source@));
    if contains(&text, &chars_of("#[AsEventListener")) || contains(&text, &chars_of("EventSubscriberInterface"))
        || contains(&chars_of(file.path.as_str()), &chars_of("EventSubscriber")) {
        match regex_captures(PATTERN_EVENT, source) {
            Some(matches) => {
                let ghost cv = matches@.map_values(|x: RegexCapture| crate::patterns::capture_view(x));
                let mut m: usize = 0;
                assert(cv.subrange(0, 0) =~= Seq::<crate::patterns::CaptureView>::empty());
                assert(base + Seq::<(Seq<char>, Seq<char>)>::empty() =~= base);
                while m < matches.len()
                    invariant
                        m <= matches@.len(),
                        handler < symbols@.len(),
                        handler as int == file_class(symbols@, file.path@),
                        cv == matches@.map_values(|x: RegexCapture| crate::patterns::capture_view(x)),
                        output.nodes@ == nodes,
                        output.edges@.len() >= start_edges,
                        output.edges@.subrange(0, start_edges as int) == edges0,
                        edge_ends_after(output.edges@, start_edges as int) == base + listener_capture_edges(
                            symbols@,
                            file.path@,
                            cv.subrange(0, m as int),
                        ),
                        forall|k: int| start_edges <= k < output.edges@.len() ==> (#[trigger] output.edges@[k]).relation
                            == RelationKind::HandledBy || output.edges@[k].relation == RelationKind::Listens,
                    decreases matches.len() - m,
                {
                    let ghost pre = cv.subrange(0, m + 1);
                    assert(pre.drop_last() =~= cv.subrange(0, m as int));
                    assert(pre.last() == crate::patterns::capture_view(matches@[m as int]));
                    proof {
                        if matches@[m as int].groups@.len() > 0 {
                            assert(pre.last().3[0] == match matches@[m as int].groups@[0] { Some(t) => Some(t@), None => None });
                        }
                    }
                    let ghost eb = output.edges@;
                    match group(&matches[m], 0) {
                        Some(name) => match unique_class(symbols, name.as_str()) {
                            Some(event) => {
                                proof {
                                    let nc = named_class(symbols@, name@);
                                    lemma_single_named(symbols@, crate::line_analysis::after_last(name@, seq!['\\']), nc, event as int);
                                }
                                if !str_equal(symbols[event].id.as_str(), symbols[handler].id.as_str()) {
                                    output.edges.push(CodeEdge::new(symbols[event].id.clone(), symbols[handler].id.clone(), RelationKind::Listens));
                                    assert(output.edges@.subrange(0, start_edges as int) =~= eb.subrange(0, start_edges as int));
                                    assert(edge_ends_after(output.edges@, start_edges as int) =~= edge_ends_after(eb, start_edges as int).push(
                                        (symbols@[event as int].id@, symbols@[handler as int].id@),
                                    ));
                                }
                            },
                            None => {},
                        },
                        None => {},
                    }
                    m = m + 1;
                }
                assert(cv.subrange(0, cv.len() as int) =~= cv);
            },
            None => {},
        }
    }
}

/// A Symfony project: it has a `symfony.lock`, or its `composer.json` requires the
/// framework bundle.
pub fn is_symfony(lock_present: bool, composer_json: Option<&str>) -> (res: bool)
    ensures
        res == (lock_present || (composer_json matches Some(c) && seq_contains(c@, "symfony/framework-bundle"@))),
{
    lock_present || match composer_json {
        Some(c) => contains(&chars_of(c), &chars_of("symfony/framework-bundle")),
        None => false,
    }
}

/// The text of the first source entry for `path` from position `i` on.
pub open spec fn source_from(sources: Seq<SourceText>, path: Seq<char>, i: int) -> Option<Seq<char>>
    decreases sources.len() - i,
{
    if i < 0 || i >= sources.len() {
        None
    } else if sources[i].path@ == path {
        Some(sources[i].text@)
    } else {
        source_from(sources, path, i + 1)
    }
}

/// The text of the first source entry for `path`.
fn source_of(sources: &Vec<SourceText>, path: &str) -> (res: Option<String>)
    ensures
        match res {
            Some(t) => source_from(sources@, path@, 0) == Some(t@),
            None => source_from(sources@, path@, 0) is None,
        },
{
    let mut i: usize = 0;
    while i < sources.len()
        invariant
            i <= sources@.len(),
            source_from(sources@, path@, 0) == source_from(sources@, path@, i as int),
        decreases sources.len() - i,
    {
        if str_equal(sources[i].path.as_str(), path) {
            return Some(sources[i].text.clone());
        }
        i = i + 1;
    }
    None
}

/// The ids of the nodes before position `n` and after it make up all the ids.
proof fn lemma_ids_split(v: Seq<CodeNode>, n: int)
    requires
        0 <= n <= v.len(),
    ensures
        node_ids(v) == node_ids(v.subrange(0, n)) + ids_after(v, n),
{
    assert(node_ids(v) =~= node_ids(v.subrange(0, n)) + ids_after(v, n));
}

/// The ids of the nodes the Symfony adapters find in the first `n` readable files, in order.
pub open spec fn symfony_ids(
    files: Seq<ProjectFile>,
    symbols: Seq<CodeNode>,
    sources: Seq<SourceText>,
    on_disk: Seq<Seq<char>>,
    n: int,
) -> Seq<Seq<char>>
    decreases n,
{
    if n <= 0 {
        Seq::empty()
    } else {
        let r = symfony_ids(files, symbols, sources, on_disk, n - 1);
        let f = files[n - 1];
        match source_from(sources, f.path@, 0) {
            Some(t) => if seq_ends_with(f.path@, ".php"@) {
                templates_found(symbols, f.path@, t, on_disk, r + php_route_ids(f.path@, t, symbols, symbols.len() as int)).0
            } else if spec_route_yaml(f.path@) {
                r + yaml_route_ids(f.path@, t)
            } else {
                r
            },
            None => r,
        }
    }
}

/// The ids of the nodes the general adapters find in the first `n` readable files, in order.
pub open spec fn framework_ids(files: Seq<ProjectFile>, symbols: Seq<CodeNode>, sources: Seq<SourceText>, n: int) -> Seq<Seq<char>>
    decreases n,
{
    if n <= 0 {
        Seq::empty()
    } else {
        let r = framework_ids(files, symbols, sources, n - 1);
        let f = files[n - 1];
        match source_from(sources, f.path@, 0) {
            Some(t) => r + next_ids(symbols, f.path@) + http_route_ids(f.path@, t, 3) + (if seq_ends_with(f.path@, ".dart"@) {
                go_route_ids(f.path@, t, go_route_pattern()) + pattern_node_ids(NodeKind::Provider, f.path@, t, provider_pattern())
            } else {
                Seq::empty()
            }) + pattern_node_ids(
                NodeKind::DatabaseTable,
                f.path@,
                t,
                r#"(?i)create\s+table\s+(?:if\s+not\s+exists\s+)?[\"`]?([A-Za-z_]\w*)"#@,
            ),
            None => r,
        }
    }
}

/// Symfony routes, templates, commands, messages and events of the readable files.
pub fn analyze_symfony(files: &Vec<ProjectFile>, symbols: &Vec<CodeNode>, sources: &Vec<SourceText>, on_disk: &Vec<String>, symfony: bool) -> (res: FrameworkAnalysis)
    ensures
        !symfony ==> res.nodes@.len() == 0 && res.edges@.len() == 0,
        symfony ==> node_ids(res.nodes@) == symfony_ids(files@, symbols@, sources@, views(on_disk@), files@.len() as int),
{
    let mut output = FrameworkAnalysis::new();
    if !symfony {
        return output;
    }
    assert(node_ids(output.nodes@) =~= Seq::<Seq<char>>::empty());
    let mut f: usize = 0;
    while f < files.len()
        invariant
            f <= files@.len(),
            node_ids(output.nodes@) == symfony_ids(files@, symbols@, sources@, views(on_disk@), f as int),
        decreases files.len() - f,
    {
        let file = &files[f];
        match source_of(sources, file.path.as_str()) {
            Some(source) => {
                if ends_with(&chars_of(file.path.as_str()), &chars_of(".php")) {
                    let ghost n0 = output.nodes@;
                    analyze_php_routes(file, source.as_str(), symbols, &mut output);
                    proof {
                        lemma_ids_split(output.nodes@, n0.len() as int);
                    }
                    analyze_templates(file, source.as_str(), symbols, on_disk, &mut output);
                    analyze_command(file, source.as_str(), symbols, &mut output);
                    analyze_events_and_messages(file, source.as_str(), symbols, &mut output);
                } else if is_route_yaml(file.path.as_str()) {
                    let ghost n0 = output.nodes@;
                    analyze_yaml_routes(file, source.as_str(), symbols, &mut output);
                    proof {
                        lemma_ids_split(output.nodes@, n0.len() as int);
                    }
                }
            },
            None => {},
        }
        f = f + 1;
    }
    output
}

/// The ends of the edges the generic adapters give for the first `n` readable files, file
/// after file: Next.js handlers, HTTP route handlers, `GoRoute` pages and inheritance.
pub open spec fn framework_edges(files: Seq<ProjectFile>, symbols: Seq<CodeNode>, sources: Seq<SourceText>, n: int) -> Seq<(Seq<char>, Seq<char>)>
    decreases n,
{
    if n <= 0 {
        Seq::empty()
    } else {
        let r = framework_edges(files, symbols, sources, n - 1);
        let f = files[n - 1];
        match source_from(sources, f.path@, 0) {
            Some(t) => r + next_edges(symbols, f.path@) + http_route_edges(symbols, f.path@, t, 3) + (if seq_ends_with(
                f.path@,
                ".dart"@,
            ) {
                go_route_edges(symbols, f.path@, t, go_route_pattern())
            } else {
                Seq::empty()
            }) + inheritance_edges(symbols, f.path@, t, 3).map_values(
                |e: (Seq<char>, Seq<char>, RelationKind)| (e.0, e.1),
            ),
            None => r,
        }
    }
}

proof fn lemma_edge_ends_split(v: Seq<CodeEdge>, n: int)
    requires
        0 <= n <= v.len(),
    ensures
        edge_ends_after(v, 0) == edge_ends_after(v.subrange(0, n), 0) + edge_ends_after(v, n),
        edges_after(v, n).map_values(|e: (Seq<char>, Seq<char>, RelationKind)| (e.0, e.1)) == edge_ends_after(v, n),
{
    assert(edge_ends_after(v, 0) =~= edge_ends_after(v.subrange(0, n), 0) + edge_ends_after(v, n));
    assert(edges_after(v, n).map_values(|e: (Seq<char>, Seq<char>, RelationKind)| (e.0, e.1)) =~= edge_ends_after(v, n));
}

/// The framework adapters over the readable files of a project. `sources` holds the
/// files that could be read; `on_disk` lists the project's files; `symfony` says whether
/// the project is a Symfony one (see `is_symfony`).
pub fn analyze_frameworks(files: &Vec<ProjectFile>, symbols: &Vec<CodeNode>, sources: &Vec<SourceText>, on_disk: &Vec<String>, symfony: bool) -> (res: FrameworkAnalysis)
    ensures
        node_ids(res.nodes@) == framework_ids(files@, symbols@, sources@, files@.len() as int) + if symfony {
            symfony_ids(files@, symbols@, sources@, views(on_disk@), files@.len() as int)
        } else {
            Seq::empty()
        },
        ({
            let fe = framework_edges(files@, symbols@, sources@, files@.len() as int);
            fe.len() <= res.edges@.len() && edge_ends_after(res.edges@, 0).subrange(0, fe.len() as int) == fe
        }),
{
    let mut out = FrameworkAnalysis::new();
    assert(node_ids(out.nodes@) =~= Seq::<Seq<char>>::empty());
    assert(edge_ends_after(out.edges@, 0) =~= Seq::<(Seq<char>, Seq<char>)>::empty());
    let mut f: usize = 0;
    while f < files.len()
        invariant
            f <= files@.len(),
            node_ids(out.nodes@) == framework_ids(files@, symbols@, sources@, f as int),
            edge_ends_after(out.edges@, 0) == framework_edges(files@, symbols@, sources@, f as int),
        decreases files.len() - f,
    {
        let file = &files[f];
        match source_of(sources, file.path.as_str()) {
            Some(source) => {
                let ghost n0 = out.nodes@;
                let ghost e0 = out.edges@;
                analyze_next(file, symbols, &mut out);
                proof {
                    lemma_ids_split(out.nodes@, n0.len() as int);
                    lemma_edge_ends_split(out.edges@, e0.len() as int);
                }
                let ghost n1 = out.nodes@;
                let ghost e1 = out.edges@;
                analyze_http_routes(file, source.as_str(), symbols, &mut out);
                proof {
                    lemma_ids_split(out.nodes@, n1.len() as int);
                    lemma_edge_ends_split(out.edges@, e1.len() as int);
                }
                let ghost n2 = out.nodes@;
                let ghost e2 = out.edges@;
                analyze_flutter(file, source.as_str(), symbols, &mut out);
                proof {
                    lemma_ids_split(out.nodes@, n2.len() as int);
                    if !seq_ends_with(file.path@, ".dart"@) {
                        assert(ids_after(out.nodes@, n2.len() as int) =~= Seq::<Seq<char>>::empty());
                        assert(out.edges@.subrange(0, e2.len() as int) =~= e2);
                    }
                    lemma_edge_ends_split(out.edges@, e2.len() as int);
                    if !seq_ends_with(file.path@, ".dart"@) {
                        assert(edge_ends_after(out.edges@, e2.len() as int) =~= Seq::<(Seq<char>, Seq<char>)>::empty());
                    }
                }
                let ghost e3 = out.edges@;
                analyze_inheritance(file, source.as_str(), symbols, &mut out);
                proof {
                    lemma_edge_ends_split(out.edges@, e3.len() as int);
                    assert(out.edges@.subrange(0, e3.len() as int) == e3);
                }
                let ghost n3 = out.nodes@;
                analyze_sql(file, source.as_str(), &mut out);
                proof {
                    lemma_ids_split(out.nodes@, n3.len() as int);
                }
            },
            None => {},
        }
        f = f + 1;
    }
    let mut symfony_part = analyze_symfony(files, symbols, sources, on_disk, symfony);
    let ghost a = out.nodes@;
    let ghost b = symfony_part.nodes@;
    let ghost ea = out.edges@;
    out.nodes.append(&mut symfony_part.nodes);
    out.edges.append(&mut symfony_part.edges);
    proof {
        assert(edge_ends_after(out.edges@, 0).subrange(0, ea.len() as int) =~= edge_ends_after(ea, 0));
        assert(node_ids(a + b) =~= node_ids(a) + node_ids(b));
        if !symfony {
            assert(node_ids(b) =~= Seq::<Seq<char>>::empty());
        }
    }
    out
}

} // verus!
