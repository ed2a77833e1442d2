//! The detectors run over the project graph and the project's source text.
use vstd::prelude::*;

use crate::findings::{
    clone_span, finding, resolved_call_depth, pattern_column_outside_literal, Finding,
    FindingCategory, FindingInput, FindingSeverity, FindingStatus, SourceSpan, SourceText,
};
use crate::hashing::stable_hash;
use crate::model::{CodeEdge, CodeNode, NodeKind, ProjectGraph, RelationKind, copy_opt_string, str_equal};
use crate::patterns::matches_pattern;
use crate::text::{
    append_chars, chars_of, concat_str, contains, count_occurrences, decimal, find_char,
    join_chars, seq_contains, seq_starts_with, slice_chars, spec_replace_char, spec_to_lowercase,
    split_lines, spec_join, spec_lines, starts_with, str_less, string_of, to_lowercase, trim, replace_char, views,
};

verus! {

/// The detectors, each reported under its own name.
#[derive(Clone, Copy, Debug, PartialEq, Eq, Structural)]
pub enum Detector {
    LongFunction,
    GodClassModule,
    HighFanOut,
    HighFanIn,
    DeepCallChain,
    DirectCallCycle,
    CyclomaticComplexity,
    TooManyParameters,
    HardcodedSecret,
    CommandInjection,
    UnsafeDeserialization,
    SqlInjection,
    SensitiveLogging,
    PathTraversal,
    WeakCrypto,
    OpenRedirect,
    UnsafeHtml,
    IoInsideLoop,
}

impl Detector {
    pub open spec fn spec_name(self) -> Seq<char> {
        match self {
            Detector::LongFunction => "long_function"@,
            Detector::GodClassModule => "god_class_module"@,
            Detector::HighFanOut => "high_fan_out"@,
            Detector::HighFanIn => "high_fan_in"@,
            Detector::DeepCallChain => "deep_call_chain"@,
            Detector::DirectCallCycle => "direct_call_cycle"@,
            Detector::CyclomaticComplexity => "cyclomatic_complexity"@,
            Detector::TooManyParameters => "too_many_parameters"@,
            Detector::HardcodedSecret => "hardcoded_secret"@,
            Detector::CommandInjection => "command_injection"@,
            Detector::UnsafeDeserialization => "unsafe_deserialization"@,
            Detector::SqlInjection => "sql_injection"@,
            Detector::SensitiveLogging => "sensitive_logging"@,
            Detector::PathTraversal => "path_traversal"@,
            Detector::WeakCrypto => "weak_crypto"@,
            Detector::OpenRedirect => "open_redirect"@,
            Detector::UnsafeHtml => "unsafe_html"@,
            Detector::IoInsideLoop => "io_inside_loop"@,
        }
    }

    /// The name under which the detector reports.
    pub fn name(self) -> (res: &'static str)
        ensures
            res@ == self.spec_name(),
    {
        match self {
            Detector::LongFunction => "long_function",
            Detector::GodClassModule => "god_class_module",
            Detector::HighFanOut => "high_fan_out",
            Detector::HighFanIn => "high_fan_in",
            Detector::DeepCallChain => "deep_call_chain",
            Detector::DirectCallCycle => "direct_call_cycle",
            Detector::CyclomaticComplexity => "cyclomatic_complexity",
            Detector::TooManyParameters => "too_many_parameters",
            Detector::HardcodedSecret => "hardcoded_secret",
            Detector::CommandInjection => "command_injection",
            Detector::UnsafeDeserialization => "unsafe_deserialization",
            Detector::SqlInjection => "sql_injection",
            Detector::SensitiveLogging => "sensitive_logging",
            Detector::PathTraversal => "path_traversal",
            Detector::WeakCrypto => "weak_crypto",
            Detector::OpenRedirect => "open_redirect",
            Detector::UnsafeHtml => "unsafe_html",
            Detector::IoInsideLoop => "io_inside_loop",
        }
    }
}

/// Only the long-function detector reports under its name.
pub proof fn lemma_long_function_name_unique(d: Detector)
    ensures
        d != Detector::LongFunction ==> d.spec_name() != Detector::LongFunction.spec_name(),
{
    reveal_strlit("long_function");
    reveal_strlit("god_class_module");
    reveal_strlit("high_fan_out");
    reveal_strlit("high_fan_in");
    reveal_strlit("deep_call_chain");
    reveal_strlit("direct_call_cycle");
    reveal_strlit("cyclomatic_complexity");
    reveal_strlit("too_many_parameters");
    reveal_strlit("hardcoded_secret");
    reveal_strlit("command_injection");
    reveal_strlit("unsafe_deserialization");
    reveal_strlit("sql_injection");
    reveal_strlit("sensitive_logging");
    reveal_strlit("path_traversal");
    reveal_strlit("weak_crypto");
    reveal_strlit("open_redirect");
    reveal_strlit("unsafe_html");
    reveal_strlit("io_inside_loop");
    if d != Detector::LongFunction {
        let a = d.spec_name();
        let b = Detector::LongFunction.spec_name();
        if a.len() == b.len() {
            assert(a[0] != b[0] || a[1] != b[1]);
        }
    }
}

pub open spec fn is_function_like(kind: NodeKind) -> bool {
    kind == NodeKind::Function || kind == NodeKind::Method || kind == NodeKind::Constructor
}

/// Number of lines a node spans: `end - start + 1`, absent bounds counting as 0.
pub open spec fn spec_line_count(n: CodeNode) -> int {
    let e: int = match n.end_line { Some(x) => x as int, None => 0 };
    let s: int = match n.start_line { Some(x) => x as int, None => 0 };
    let d: int = if e >= s { e - s } else { 0 };
    if d + 1 > usize::MAX { usize::MAX as int } else { d + 1 }
}

/// Test, spec and fixture files, judged on the lowercase path with `/` separators.
pub open spec fn spec_test_or_fixture(path: Seq<char>) -> bool {
    let p = spec_replace_char(spec_to_lowercase(path), '\\', '/');
    seq_contains(p, "/test"@) || seq_starts_with(p, "test"@) || seq_contains(p, "/fixtures/"@)
        || seq_contains(p, ".spec."@) || seq_contains(p, ".test."@)
}

/// First-party code with a known path: the nodes the detectors look at.
pub open spec fn inspected(n: CodeNode) -> bool {
    n.source_scope.spec_library_eligible() && n.path is Some
}

/// An inspected function of at least 120 lines outside tests: a long-function finding.
pub open spec fn long_function_applies(n: CodeNode) -> bool {
    &&& inspected(n)
    &&& is_function_like(n.kind)
    &&& spec_line_count(n) >= 120
    &&& !spec_test_or_fixture(n.path->0@)
}

/// The severity of a long function: high from 250 lines on.
pub open spec fn long_function_severity(n: CodeNode) -> FindingSeverity {
    if spec_line_count(n) >= 250 { FindingSeverity::High } else { FindingSeverity::Medium }
}

/// A finding is about inspected code: its path is that of an inspected node.
pub open spec fn in_scope(g: ProjectGraph, f: Finding) -> bool {
    exists|i: int| 0 <= i < g.nodes@.len() && inspected(g.nodes@[i]) && f.path == g.nodes@[i].path
}

/// The finding is open, belongs to the project, takes its id from its fingerprint and names
/// the node among its nodes.
pub open spec fn issued_for(f: Finding, project_id: Seq<char>, node_id: Seq<char>) -> bool {
    &&& f.status == FindingStatus::Open
    &&& f.project_id@ == project_id
    &&& f.id@ == "finding:"@ + f.fingerprint@.subrange(0, 24)
    &&& views(f.node_ids@).contains(node_id)
}

/// Every finding of `v` is issued for the node.
pub open spec fn all_issued_for(v: Seq<Finding>, project_id: Seq<char>, node_id: Seq<char>) -> bool {
    forall|k: int| 0 <= k < v.len() ==> issued_for(#[trigger] v[k], project_id, node_id)
}

/// The finding is issued for an inspected node, at that node's path.
pub open spec fn reported_on(g: ProjectGraph, f: Finding, project_id: Seq<char>) -> bool {
    exists|i: int| 0 <= i < g.nodes@.len() && inspected(g.nodes@[i]) && f.path == g.nodes@[i].path
        && #[trigger] issued_for(f, project_id, g.nodes@[i].id@)
}

/// Findings issued for a node stay so once more are appended.
proof fn lemma_issued_append(a: Seq<Finding>, b: Seq<Finding>, project_id: Seq<char>, node_id: Seq<char>)
    requires
        all_issued_for(a, project_id, node_id),
        all_issued_for(b, project_id, node_id),
    ensures
        all_issued_for(a + b, project_id, node_id),
{
    assert forall|k: int| 0 <= k < (a + b).len() implies issued_for(#[trigger] (a + b)[k], project_id, node_id) by {
        if k < a.len() {
            assert((a + b)[k] == a[k]);
        } else {
            assert((a + b)[k] == b[k - a.len()]);
        }
    }
}

/// Every finding of `v` is located at `path` and is no long-function finding.
pub open spec fn other_findings_at(v: Seq<Finding>, path: Option<String>) -> bool {
    forall|k: int| 0 <= k < v.len() ==> (#[trigger] v[k]).path == path
        && v[k].detector@ != Detector::LongFunction.spec_name()
}

fn line_count(n: &CodeNode) -> (res: usize)
    ensures
        res == spec_line_count(*n),
{
    let e = match n.end_line {
        Some(x) => x,
        None => 0,
    };
    let s = match n.start_line {
        Some(x) => x,
        None => 0,
    };
    let d = if e >= s { e - s } else { 0 };
    if d == usize::MAX { usize::MAX } else { d + 1 }
}

fn test_or_fixture(path: &str) -> (res: bool)
    ensures
        res == spec_test_or_fixture(path@),
{
    let lower = to_lowercase(path);
    let p = replace_char(&chars_of(lower.as_str()), '\\', '/');
    contains(&p, &chars_of("/test")) || starts_with(&p, &chars_of("test")) || contains(
        &p,
        &chars_of("/fixtures/"),
    ) || contains(&p, &chars_of(".spec.")) || contains(&p, &chars_of(".test."))
}

fn cat(a: &str, b: &str) -> (res: String)
    ensures
        res@ == a@ + b@,
{
    concat_str(a, b)
}

fn cat3(a: &str, b: &str, c: &str) -> (res: String)
    ensures
        res@ == a@ + b@ + c@,
{
    let ab = concat_str(a, b);
    concat_str(ab.as_str(), c)
}

fn number(n: usize) -> (res: String)
    ensures
        res@ == crate::text::spec_decimal(n as nat),
{
    string_of(&decimal(n))
}

fn single(s: String) -> (res: Vec<String>)
    ensures
        res@ == seq![s],
{
    let mut v: Vec<String> = Vec::new();
    v.push(s);
    v
}

/// A finding about one node, naming only that node.
fn node_finding(
    project_id: &str,
    node: &CodeNode,
    category: FindingCategory,
    severity: FindingSeverity,
    title: &str,
    description: String,
    evidence: String,
    edge_ids: Vec<String>,
    detector: Detector,
    confidence_permille: u32,
    source_hash: String,
) -> (res: Finding)
    ensures
        res.detector@ == detector.spec_name(),
        res.node_ids@ == seq![node.id],
        res.path == node.path,
        res.category == category,
        res.severity == severity,
        res.confidence_permille == confidence_permille,
        detector != Detector::LongFunction ==> res.detector@ != Detector::LongFunction.spec_name(),
        issued_for(res, project_id@, node.id@),
{
    proof {
        lemma_long_function_name_unique(detector);
        assert(views(seq![node.id]) =~= seq![node.id@]);
    }
    let res = finding(FindingInput {
        project_id: String::from_str(project_id),
        category,
        severity,
        title: String::from_str(title),
        description,
        evidence: single(evidence),
        node_ids: single(node.id.clone()),
        edge_ids,
        path: copy_opt_string(&node.path),
        start_line: node.start_line,
        end_line: node.end_line,
        detector: String::from_str(detector.name()),
        confidence_permille,
        source_hash,
    });
    assert(views(res.node_ids@)[0] == node.id@);
    res
}

fn edge_id_list(graph: &ProjectGraph, edges: &Vec<usize>) -> (res: Vec<String>)
    requires
        forall|k: int| 0 <= k < edges@.len() ==> (edges@[k] as int) < graph.edges@.len(),
    ensures
        res@.len() == edges@.len(),
        forall|k: int| 0 <= k < edges@.len() ==> res@[k] == graph.edges@[edges@[k] as int].id,
{
    let mut out: Vec<String> = Vec::new();
    let mut k: usize = 0;
    while k < edges.len()
        invariant
            k <= edges@.len(),
            out@.len() == k,
            forall|j: int| 0 <= j < edges@.len() ==> (edges@[j] as int) < graph.edges@.len(),
            forall|j: int| 0 <= j < k ==> out@[j] == graph.edges@[edges@[j] as int].id,
        decreases edges.len() - k,
    {
        out.push(graph.edges[edges[k]].id.clone());
        k = k + 1;
    }
    out
}

/// Accessor names: `get`, `set`, `is` or `has` followed by an uppercase letter or `_`.
pub open spec fn spec_accessor_name(name: Seq<char>) -> bool {
    exists|p: Seq<char>| (p == "get"@ || p == "set"@ || p == "is"@ || p == "has"@)
        && p.len() < name.len() && #[trigger] seq_starts_with(name, p)
        && (name[p.len() as int] == '_' || crate::text::spec_is_uppercase(name[p.len() as int]))
}

fn is_accessor_name(name: &str) -> (res: bool)
    ensures
        res == spec_accessor_name(name@),
{
    let chars = chars_of(name);
    let prefixes: Vec<&str> = vec!["get", "set", "is", "has"];
    let mut i: usize = 0;
    while i < prefixes.len()
        invariant
            i <= prefixes@.len(),
            prefixes@ == seq!["get", "set", "is", "has"],
            chars@ == name@,
            forall|j: int| 0 <= j < i ==> {
                let p = (#[trigger] prefixes@[j])@;
                !(p.len() < name@.len() && seq_starts_with(name@, p)
                    && (name@[p.len() as int] == '_' || crate::text::spec_is_uppercase(name@[p.len() as int])))
            },
        decreases prefixes.len() - i,
    {
        let p = chars_of(prefixes[i]);
        if starts_with(&chars, &p) && p.len() < chars.len() {
            let c = chars[p.len()];
            if c == '_' || crate::text::is_uppercase(c) {
                return true;
            }
        }
        i = i + 1;
    }
    proof {
        assert forall|p: Seq<char>| (p == "get"@ || p == "set"@ || p == "is"@ || p == "has"@)
            && p.len() < name@.len() && #[trigger] seq_starts_with(name@, p) implies !(name@[p.len() as int] == '_'
            || crate::text::spec_is_uppercase(name@[p.len() as int])) by {
            if p == "get"@ {
                assert(prefixes@[0]@ == p);
            } else if p == "set"@ {
                assert(prefixes@[1]@ == p);
            } else if p == "is"@ {
                assert(prefixes@[2]@ == p);
            } else {
                assert(prefixes@[3]@ == p);
            }
        }
    }
    false
}

/// The text of the first source entry for `path`, empty when there is none.
pub open spec fn source_text_of(sources: Seq<SourceText>, path: Seq<char>) -> Seq<char> {
    match crate::framework::source_from(sources, path, 0) {
        Some(t) => t,
        None => Seq::empty(),
    }
}

/// The source text held for `path`: the first entry for that path, empty when none.
fn source_for(sources: &Vec<SourceText>, path: &str) -> (res: Vec<char>)
    ensures
        (exists|k: int| 0 <= k < sources@.len() && sources@[k].path@ == path@) ==> exists|k: int|
            0 <= k < sources@.len() && sources@[k].path@ == path@ && res@ == sources@[k].text@
            && forall|j: int| 0 <= j < k ==> sources@[j].path@ != path@,
        !(exists|k: int| 0 <= k < sources@.len() && sources@[k].path@ == path@) ==> res@.len() == 0,
        res@ == source_text_of(sources@, path@),
{
    let mut i: usize = 0;
    while i < sources.len()
        invariant
            i <= sources@.len(),
            forall|j: int| 0 <= j < i ==> sources@[j].path@ != path@,
            crate::framework::source_from(sources@, path@, 0) == crate::framework::source_from(sources@, path@, i as int),
        decreases sources.len() - i,
    {
        if str_equal(sources[i].path.as_str(), path) {
            return chars_of(sources[i].text.as_str());
        }
        i = i + 1;
    }
    Vec::new()
}

/// Rows `from .. from + count` of `rows`, clipped to its end.
fn take_rows(rows: &Vec<Vec<char>>, from: usize, count: usize) -> (res: Vec<Vec<char>>)
    ensures
        res@.len() <= count,
        from <= rows@.len() ==> res@.len() == vstd::math::min(count as int, rows@.len() - from),
        forall|k: int| 0 <= k < res@.len() ==> res@[k]@ == rows@[from + k]@,
        from > rows@.len() ==> res@.len() == 0,
{
    let mut out: Vec<Vec<char>> = Vec::new();
    let mut i = from;
    while i < rows.len() && out.len() < count
        invariant
            from <= i,
            from > rows@.len() ==> i == from,
            from <= rows@.len() ==> i <= rows@.len(),
            out@.len() == i - from,
            out@.len() <= count,
            forall|k: int| 0 <= k < out@.len() ==> out@[k]@ == rows@[from + k]@,
        decreases rows.len() - i,
    {
        out.push(slice_chars(&rows[i], 0, rows[i].len()));
        proof {
            assert(rows@[i as int]@.subrange(0, rows@[i as int]@.len() as int) =~= rows@[i as int]@);
        }
        i = i + 1;
    }
    out
}

/// Whether some resolved call edge leads from `from` to `to`.
fn has_call(graph: &ProjectGraph, from: &str, to: &str) -> (res: bool)
    ensures
        res == exists|e: int| 0 <= e < graph.edges@.len() && graph.edges@[e].relation == RelationKind::Calls
            && graph.edges@[e].source_id@ == from@ && graph.edges@[e].target_id@ == to@,
{
    let mut e: usize = 0;
    while e < graph.edges.len()
        invariant
            e <= graph.edges@.len(),
            forall|j: int| 0 <= j < e ==> !(graph.edges@[j].relation == RelationKind::Calls
                && graph.edges@[j].source_id@ == from@ && graph.edges@[j].target_id@ == to@),
        decreases graph.edges.len() - e,
    {
        if graph.edges[e].relation == RelationKind::Calls && str_equal(graph.edges[e].source_id.as_str(), from)
            && str_equal(graph.edges[e].target_id.as_str(), to) {
            return true;
        }
        e = e + 1;
    }
    false
}

/// Whether the unordered pair was already reported.
fn pair_seen(pairs: &Vec<(String, String)>, a: &str, b: &str) -> (res: bool)
    ensures
        res == exists|k: int| 0 <= k < pairs@.len() && pairs@[k].0@ == a@ && pairs@[k].1@ == b@,
{
    let mut k: usize = 0;
    while k < pairs.len()
        invariant
            k <= pairs@.len(),
            forall|j: int| 0 <= j < k ==> !(pairs@[j].0@ == a@ && pairs@[j].1@ == b@),
        decreases pairs.len() - k,
    {
        if str_equal(pairs[k].0.as_str(), a) && str_equal(pairs[k].1.as_str(), b) {
            return true;
        }
        k = k + 1;
    }
    false
}


fn sat_add(a: usize, b: usize) -> (res: usize)
    ensures
        res == if a + b > usize::MAX { usize::MAX as int } else { a + b },
{
    if a > usize::MAX - b { usize::MAX } else { a + b }
}

/// The relation couples a node to another: a call, a use, a dependency or an import.
pub open spec fn is_coupling(r: RelationKind) -> bool {
    r == RelationKind::Calls || r == RelationKind::Uses || r == RelationKind::DependsOn || r == RelationKind::Imports
}

/// How many of the first `k` listed edge positions hold a coupling relation.
pub open spec fn coupling_count(edges: Seq<CodeEdge>, positions: Seq<usize>, k: int) -> int
    decreases k,
{
    if k <= 0 {
        0
    } else {
        coupling_count(edges, positions, k - 1) + if is_coupling(edges[positions[k - 1] as int].relation) { 1int } else { 0 }
    }
}

/// How many of the first `k` listed edge positions hold a call.
pub open spec fn call_count(edges: Seq<CodeEdge>, positions: Seq<usize>, k: int) -> int
    decreases k,
{
    if k <= 0 {
        0
    } else {
        call_count(edges, positions, k - 1) + if edges[positions[k - 1] as int].relation == RelationKind::Calls { 1int } else { 0 }
    }
}

/// The coupling edges leaving the node `id`.
pub open spec fn fan_out_of(g: ProjectGraph, id: Seq<char>) -> int {
    let p = crate::model::edge_positions_from(g.edges@, id, g.edges@.len() as int);
    coupling_count(g.edges@, p, p.len() as int)
}

/// The calls entering the node `id`.
pub open spec fn fan_in_of(g: ProjectGraph, id: Seq<char>) -> int {
    let p = crate::model::edge_positions_to(g.edges@, id, g.edges@.len() as int);
    call_count(g.edges@, p, p.len() as int)
}

/// The detectors that report first on a node, in order: an oversized class, a high fan-out and a
/// high fan-in.
pub open spec fn structural_head(g: ProjectGraph, n: CodeNode, lines: int, test_file: bool) -> Seq<Seq<char>> {
    (if (n.kind == NodeKind::Class || n.kind == NodeKind::Service || n.kind == NodeKind::Controller) && 800 <= lines
        <= 5000 && !test_file {
        seq![Detector::GodClassModule.spec_name()]
    } else {
        seq![]
    }) + (if fan_out_of(g, n.id@) >= 20 && !test_file { seq![Detector::HighFanOut.spec_name()] } else { seq![] })
        + (if fan_in_of(g, n.id@) >= 30 && lines > 10 && !spec_accessor_name(n.name@) && !test_file {
        seq![Detector::HighFanIn.spec_name()]
    } else {
        seq![]
    })
}

/// The kinds of node whose call depth is examined.
pub open spec fn chain_kind(k: NodeKind) -> bool {
    k == NodeKind::EntryPoint || k == NodeKind::Route || k == NodeKind::ApiEndpoint || k == NodeKind::Handler
        || k == NodeKind::Controller || k == NodeKind::Service || k == NodeKind::Worker || k == NodeKind::Job
}

/// Structural findings about the inspected node `i`: oversized classes, coupling, impact,
/// call depth and direct call cycles.
fn structural_findings(
    project_id: &str,
    graph: &ProjectGraph,
    i: usize,
    lines: usize,
    test_file: bool,
    source_hash: &String,
    cycles: &mut Vec<(String, String)>,
) -> (res: Vec<Finding>)
    requires
        i < graph.nodes@.len(),
    ensures
        other_findings_at(res@, graph.nodes@[i as int].path),
        all_issued_for(res@, project_id@, graph.nodes@[i as int].id@),
        ({
            let head = structural_head(*graph, graph.nodes@[i as int], lines as int, test_file);
            let added = final(cycles)@.len() - old(cycles)@.len();
            &&& final(cycles)@.len() >= old(cycles)@.len()
            &&& final(cycles)@.subrange(0, old(cycles)@.len() as int) == old(cycles)@
            &&& head.len() + added <= res@.len() <= head.len() + added + 1
            &&& res@.subrange(0, head.len() as int).map_values(|f: Finding| f.detector@) == head
            &&& res@.len() == head.len() + added + 1 ==> res@[head.len() as int].detector@
                == Detector::DeepCallChain.spec_name() && chain_kind(graph.nodes@[i as int].kind)
            &&& forall|j: int| 0 <= j < added ==> {
                let f = #[trigger] res@[res@.len() - added + j];
                let pair = final(cycles)@[old(cycles)@.len() + j];
                &&& f.detector@ == Detector::DirectCallCycle.spec_name()
                &&& f.node_ids@.len() == 2
                &&& f.node_ids@[0]@ == pair.0@
                &&& f.node_ids@[1]@ == pair.1@
            }
            &&& forall|a: int, b: int| 0 <= b < a < final(cycles)@.len() && a >= old(cycles)@.len() ==> !(
                (#[trigger] final(cycles)@[a]).0@ == (#[trigger] final(cycles)@[b]).0@ && final(cycles)@[a].1@
                    == final(cycles)@[b].1@)
        }),
{
    let ghost old_cycles = cycles@;
    let ghost head = structural_head(*graph, graph.nodes@[i as int], lines as int, test_file);
    let node = &graph.nodes[i];
    let mut out: Vec<Finding> = Vec::new();
    let outgoing = graph.outgoing_edges(node.id.as_str());
    let incoming = graph.incoming_edges(node.id.as_str());
    if (node.kind == NodeKind::Class || node.kind == NodeKind::Service || node.kind == NodeKind::Controller)
        && 800 <= lines && lines <= 5000 && !test_file {
        let d = cat3(node.name.as_str(), " contient ", number(lines).as_str());
        let f = node_finding(
            project_id,
            node,
            FindingCategory::Quality,
            FindingSeverity::High,
            "Classe à responsabilités excessives",
            cat(d.as_str(), " lignes et semble regrouper trop de responsabilités."),
            cat(number(lines).as_str(), " lignes de code source"),
            Vec::new(),
            Detector::GodClassModule,
            760,
            source_hash.clone(),
        );
        out.push(f);
    }
    let mut fan_out: usize = 0;
    let mut k: usize = 0;
    while k < outgoing.len()
        invariant
            k <= outgoing@.len(),
            fan_out <= k,
            fan_out == coupling_count(graph.edges@, outgoing@, k as int),
            forall|j: int| 0 <= j < outgoing@.len() ==> (outgoing@[j] as int) < graph.edges@.len(),
        decreases outgoing.len() - k,
    {
        let r = graph.edges[outgoing[k]].relation;
        if r == RelationKind::Calls || r == RelationKind::Uses || r == RelationKind::DependsOn
            || r == RelationKind::Imports {
            fan_out = fan_out + 1;
        }
        k = k + 1;
    }
    if fan_out >= 20 && !test_file {
        let f = node_finding(
            project_id,
            node,
            FindingCategory::Quality,
            FindingSeverity::Medium,
            "Couplage sortant élevé",
            cat3(node.name.as_str(), " possède ", cat(number(fan_out).as_str(), " dépendances sortantes résolues.").as_str()),
            cat("dépendances sortantes : ", number(fan_out).as_str()),
            edge_id_list(graph, &outgoing),
            Detector::HighFanOut,
            900,
            source_hash.clone(),
        );
        out.push(f);
    }
    let mut fan_in: usize = 0;
    let mut k: usize = 0;
    while k < incoming.len()
        invariant
            k <= incoming@.len(),
            fan_in <= k,
            fan_in == call_count(graph.edges@, incoming@, k as int),
            forall|j: int| 0 <= j < incoming@.len() ==> (incoming@[j] as int) < graph.edges@.len(),
        decreases incoming.len() - k,
    {
        if graph.edges[incoming[k]].relation == RelationKind::Calls {
            fan_in = fan_in + 1;
        }
        k = k + 1;
    }
    if fan_in >= 30 && lines > 10 && !is_accessor_name(node.name.as_str()) && !test_file {
        let f = node_finding(
            project_id,
            node,
            FindingCategory::Architecture,
            FindingSeverity::Medium,
            "Point de changement à fort impact",
            cat3(
                node.name.as_str(),
                " possède ",
                cat(number(fan_in).as_str(), " appelants résolus ; toute modification peut avoir un impact important.").as_str(),
            ),
            cat("appelants résolus : ", number(fan_in).as_str()),
            edge_id_list(graph, &incoming),
            Detector::HighFanIn,
            900,
            source_hash.clone(),
        );
        out.push(f);
    }
    assert(out@.map_values(|f: Finding| f.detector@) =~= head);
    let ghost head_out = out@;
    if node.kind == NodeKind::EntryPoint || node.kind == NodeKind::Route || node.kind == NodeKind::ApiEndpoint
        || node.kind == NodeKind::Handler || node.kind == NodeKind::Controller || node.kind == NodeKind::Service
        || node.kind == NodeKind::Worker || node.kind == NodeKind::Job {
        let deepest = resolved_call_depth(graph, node.id.as_str(), 8);
        if deepest >= 7 {
            let f = node_finding(
                project_id,
                node,
                FindingCategory::Performance,
                FindingSeverity::Low,
                "Chaîne d’appels profonde",
                cat3(node.name.as_str(), " atteint une profondeur d’appels résolus d’au moins ", cat(number(deepest).as_str(), ".").as_str()),
                cat("profondeur résolue : ", number(deepest).as_str()),
                Vec::new(),
                Detector::DeepCallChain,
                700,
                source_hash.clone(),
            );
            out.push(f);
        }
    }
    let ghost base = out@;
    assert(head_out.len() <= base.len() <= head_out.len() + 1);
    assert(base.subrange(0, head.len() as int) =~= head_out);
    assert(base.len() == head_out.len() + 1 ==> base[head.len() as int].detector@ == Detector::DeepCallChain.spec_name()
        && chain_kind(graph.nodes@[i as int].kind));
    let mut k: usize = 0;
    while k < outgoing.len()
        invariant
            k <= outgoing@.len(),
            i < graph.nodes@.len(),
            node == graph.nodes@[i as int],
            forall|j: int| 0 <= j < outgoing@.len() ==> (outgoing@[j] as int) < graph.edges@.len(),
            other_findings_at(out@, graph.nodes@[i as int].path),
            cycles@.len() >= old_cycles.len(),
            cycles@.subrange(0, old_cycles.len() as int) == old_cycles,
            out@.len() == base.len() + cycles@.len() - old_cycles.len(),
            out@.subrange(0, base.len() as int) == base,
            forall|j: int| 0 <= j < cycles@.len() - old_cycles.len() ==> {
                let f = #[trigger] out@[base.len() + j];
                let pair = cycles@[old_cycles.len() + j];
                &&& f.detector@ == Detector::DirectCallCycle.spec_name()
                &&& f.node_ids@.len() == 2
                &&& f.node_ids@[0]@ == pair.0@
                &&& f.node_ids@[1]@ == pair.1@
            },
            forall|a: int, b: int| 0 <= b < a < cycles@.len() && a >= old_cycles.len() ==> !(
                (#[trigger] cycles@[a]).0@ == (#[trigger] cycles@[b]).0@ && cycles@[a].1@ == cycles@[b].1@),
            all_issued_for(out@, project_id@, graph.nodes@[i as int].id@),
            forall|j: int| 0 <= j < outgoing@.len() ==> graph.edges@[outgoing@[j] as int].source_id@ == node.id@,
        decreases outgoing.len() - k,
    {
        let edge = &graph.edges[outgoing[k]];
        if edge.relation == RelationKind::Calls && !str_equal(edge.source_id.as_str(), edge.target_id.as_str())
            && has_call(graph, edge.target_id.as_str(), edge.source_id.as_str()) {
            let (first, second) = if str_less(edge.target_id.as_str(), edge.source_id.as_str()) {
                (edge.target_id.clone(), edge.source_id.clone())
            } else {
                (edge.source_id.clone(), edge.target_id.clone())
            };
            if !pair_seen(cycles, first.as_str(), second.as_str()) {
                cycles.push((first.clone(), second.clone()));
                let evidence = cat3(first.as_str(), " ↔ ", second.as_str());
                let mut ids: Vec<String> = Vec::new();
                ids.push(first);
                ids.push(second);
                let mut edge_ids: Vec<String> = Vec::new();
                edge_ids.push(edge.id.clone());
                proof {
                    lemma_long_function_name_unique(Detector::DirectCallCycle);
                }
                let f = finding(FindingInput {
                    project_id: String::from_str(project_id),
                    category: FindingCategory::Architecture,
                    severity: FindingSeverity::Medium,
                    title: String::from_str("Dépendance d’appel circulaire"),
                    description: String::from_str("Deux symboles du projet s’appellent directement l’un l’autre."),
                    evidence: single(evidence),
                    node_ids: ids,
                    edge_ids,
                    path: copy_opt_string(&node.path),
                    start_line: node.start_line,
                    end_line: node.end_line,
                    detector: String::from_str(Detector::DirectCallCycle.name()),
                    confidence_permille: 960,
                    source_hash: source_hash.clone(),
                });
                proof {
                    let v = views(f.node_ids@);
                    assert(v[0] == f.node_ids@[0]@ && v[1] == f.node_ids@[1]@);
                    assert(edge.source_id@ == node.id@);
                    if f.node_ids@[0]@ == node.id@ {
                        assert(v.contains(v[0]));
                    } else {
                        assert(v.contains(v[1]));
                    }
                    assert(issued_for(f, project_id@, node.id@));
                }
                let ghost out_before = out@;
                out.push(f);
                proof {
                    assert(out@ =~= out_before + seq![f]);
                    lemma_issued_append(out_before, seq![f], project_id@, node.id@);
                }
            }
        }
        k = k + 1;
    }
    proof {
        let added = cycles@.len() - old_cycles.len();
        assert(out@.subrange(0, head.len() as int) =~= base.subrange(0, head.len() as int));
        assert(out@.subrange(0, head.len() as int).map_values(|f: Finding| f.detector@) =~= head);
        if out@.len() == head.len() + added + 1 {
            assert(out@[head.len() as int] == base[head.len() as int]);
        }
        assert forall|j: int| 0 <= j < added implies {
            let f = #[trigger] out@[out@.len() - added + j];
            let pair = cycles@[old_cycles.len() + j];
            &&& f.detector@ == Detector::DirectCallCycle.spec_name()
            &&& f.node_ids@.len() == 2
            &&& f.node_ids@[0]@ == pair.0@
            &&& f.node_ids@[1]@ == pair.1@
        } by {
            assert(out@.len() - added + j == base.len() + j);
        }
    }
    out
}


/// Lowercase form of a line.
fn lowered(line: &Vec<char>) -> (res: Vec<char>)
    ensures
        res@ == spec_to_lowercase(line@),
{
    let s = string_of(line);
    let l = to_lowercase(s.as_str());
    chars_of(l.as_str())
}

/// Rows `from .. from + count` of `rows`, clipped to its end.
pub open spec fn rows_window(rows: Seq<Seq<char>>, from: int, count: int) -> Seq<Seq<char>> {
    if from < rows.len() {
        rows.subrange(from, vstd::math::min(from + count, rows.len() as int))
    } else {
        Seq::empty()
    }
}

/// Rows `from .. from + count`, clipped, joined with `sep`.
fn join_rows(rows: &Vec<Vec<char>>, from: usize, count: usize, sep: &str) -> (res: Vec<char>)
    ensures
        res@ == spec_join(
            rows_window(rows@.map_values(|r: Vec<char>| r@), from as int, count as int),
            sep@,
        ),
{
    let part = take_rows(rows, from, count);
    let sep_chars = chars_of(sep);
    let res = join_chars(&part, part.len(), &sep_chars);
    proof {
        assert(part@.subrange(0, part@.len() as int).map_values(|p: Vec<char>| p@) =~= rows_window(
            rows@.map_values(|r: Vec<char>| r@),
            from as int,
            count as int,
        ));
    }
    res
}

fn contains_str(hay: &Vec<char>, needle: &str) -> (res: bool)
    ensures
        res == seq_contains(hay@, needle@),
{
    contains(hay, &chars_of(needle))
}

/// The tokens whose occurrences raise the branching complexity.
pub open spec fn branch_tokens() -> Seq<Seq<char>> {
    seq![" if "@, " else "@, " for "@, " while "@, " match "@, " case "@, " catch "@, "&&"@, "||"@]
}

/// One plus the occurrences of the first `k` tokens, each sum saturating at `usize::MAX`.
pub open spec fn token_total(lower: Seq<char>, tokens: Seq<Seq<char>>, k: int) -> int
    decreases k,
{
    if k <= 0 {
        1
    } else {
        let t = token_total(lower, tokens, k - 1);
        let c = if tokens[k - 1].len() > 0 { crate::text::count_from(lower, tokens[k - 1], 0) } else { 0 };
        if t + c > usize::MAX { usize::MAX as int } else { t + c }
    }
}

/// Estimated branching complexity: one plus the occurrences of the branching tokens.
fn branch_complexity(lower: &Vec<char>) -> (res: usize)
    ensures
        res >= 1,
        res == token_total(lower@, branch_tokens(), branch_tokens().len() as int),
{
    let tokens: Vec<&str> = vec![" if ", " else ", " for ", " while ", " match ", " case ", " catch ", "&&", "||"];
    proof {
        assert(tokens@.map_values(|t: &str| t@) =~= branch_tokens());
    }
    let mut total: usize = 1;
    let mut i: usize = 0;
    while i < tokens.len()
        invariant
            i <= tokens@.len(),
            tokens@.map_values(|t: &str| t@) == branch_tokens(),
            total >= 1,
            total == token_total(lower@, branch_tokens(), i as int),
        decreases tokens.len() - i,
    {
        let t = chars_of(tokens[i]);
        assert(branch_tokens()[i as int] == tokens@[i as int]@);
        if t.len() > 0 {
            total = sat_add(total, count_occurrences(lower, &t));
        }
        i = i + 1;
    }
    total
}

/// The fields counted so far and whether the field in progress holds something.
pub open spec fn nonblank_state(s: Seq<char>, sep: char) -> (int, bool)
    decreases s.len(),
{
    if s.len() == 0 {
        (0, false)
    } else {
        let st = nonblank_state(s.drop_last(), sep);
        if s.last() == sep {
            (st.0 + if st.1 { 1int } else { 0int }, false)
        } else if !crate::text::is_ws(s.last()) {
            (st.0, true)
        } else {
            st
        }
    }
}

/// Number of `sep`-separated fields of `s` that hold something besides whitespace.
pub open spec fn nonblank_fields(s: Seq<char>, sep: char) -> int {
    let st = nonblank_state(s, sep);
    if st.1 && st.0 < usize::MAX { st.0 + 1 } else { st.0 }
}

/// Number of comma-separated fields of `s` that hold something besides whitespace.
fn count_nonblank_fields(s: &Vec<char>, sep: char) -> (res: usize)
    ensures
        res == nonblank_fields(s@, sep),
{
    let mut count: usize = 0;
    let mut filled = false;
    let mut i: usize = 0;
    assert(s@.subrange(0, 0) =~= Seq::<char>::empty());
    while i < s.len()
        invariant
            i <= s@.len(),
            count <= i,
            (count as int, filled) == nonblank_state(s@.subrange(0, i as int), sep),
        decreases s.len() - i,
    {
        let ghost pre = s@.subrange(0, i + 1);
        assert(pre.drop_last() =~= s@.subrange(0, i as int));
        assert(pre.last() == s@[i as int]);
        if s[i] == sep {
            if filled {
                count = count + 1;
            }
            filled = false;
        } else if !crate::text::is_whitespace(s[i]) {
            filled = true;
        }
        i = i + 1;
    }
    assert(s@.subrange(0, s@.len() as int) =~= s@);
    if filled && count < usize::MAX {
        count = count + 1;
    }
    count
}

/// Parameters declared between the first `(` and the next `)` of a signature, when both
/// are there.
pub open spec fn spec_parameter_count(signature: Seq<char>) -> Option<int> {
    match crate::text::index_of(signature, '(') {
        None => None,
        Some(lp) => {
            let rest = signature.subrange(lp + 1, signature.len() as int);
            match crate::text::index_of(rest, ')') {
                None => None,
                Some(close) => Some(nonblank_fields(rest.subrange(0, close), ',')),
            }
        },
    }
}

/// Parameters declared between the first `(` and the next `)` of a signature.
fn parameter_count(signature: &Vec<char>) -> (res: Option<usize>)
    ensures
        match res {
            Some(k) => spec_parameter_count(signature@) == Some(k as int),
            None => spec_parameter_count(signature@) is None,
        },
{
    let n = signature.len();
    match find_char(signature, '(') {
        None => None,
        Some(lp) => {
            proof {
                crate::text::lemma_index_of_from_bounds(signature@, '(', 0);
                assert(crate::text::index_of_from(signature@, '(', 0) == Some(lp as int));
                assert(lp < signature@.len());
            }
            let rest = slice_chars(signature, lp + 1, n);
            match find_char(&rest, ')') {
                None => None,
                Some(close) => {
                    proof {
                        crate::text::lemma_index_of_from_bounds(rest@, ')', 0);
                    }
                    let params = slice_chars(&rest, 0, close);
                    Some(count_nonblank_fields(&params, ','))
                },
            }
        },
    }
}

/// The first row from `i` on, among the first `n`, holding `c`, with the position of `c` in it.
pub open spec fn first_row_from(rows: Seq<Seq<char>>, n: int, c: char, i: int) -> Option<(int, int)>
    decreases rows.len() - i,
{
    if i < 0 || i >= rows.len() || i >= n {
        None
    } else {
        match crate::text::index_of(rows[i], c) {
            Some(col) => Some((i, col)),
            None => first_row_from(rows, n, c, i + 1),
        }
    }
}

/// The first of the first `n` rows holding `c`, with the position of `c` in it.
fn first_row_with(rows: &Vec<Vec<char>>, n: usize, c: char) -> (res: Option<(usize, usize)>)
    ensures
        res matches Some(p) ==> p.0 < rows@.len() && p.0 < n && p.1 < rows@[p.0 as int]@.len(),
        match res {
            Some(p) => first_row_from(rows@.map_values(|r: Vec<char>| r@), n as int, c, 0) == Some((p.0 as int, p.1 as int)),
            None => first_row_from(rows@.map_values(|r: Vec<char>| r@), n as int, c, 0) is None,
        },
{
    let ghost rv = rows@.map_values(|r: Vec<char>| r@);
    let mut i: usize = 0;
    while i < rows.len() && i < n
        invariant
            i <= rows@.len(),
            rv == rows@.map_values(|r: Vec<char>| r@),
            first_row_from(rv, n as int, c, 0) == first_row_from(rv, n as int, c, i as int),
        decreases rows.len() - i,
    {
        assert(rv[i as int] == rows@[i as int]@);
        match find_char(&rows[i], c) {
            Some(col) => {
                proof {
                    crate::text::lemma_index_of_from_bounds(rows@[i as int]@, c, 0);
                }
                return Some((i, col));
            },
            None => {},
        }
        i = i + 1;
    }
    None
}

fn some_str(s: &str) -> (res: Option<String>)
    ensures
        res matches Some(v) && v@ == s@,
{
    Some(String::from_str(s))
}

/// A span over a whole line of a function's source.
fn line_span(path: &str, base: usize, index: usize, line: &Vec<char>, label: &str, role: &str) -> (res: SourceSpan)
    ensures
        res.path@ == path@,
{
    let at = sat_add(base, index);
    let t = trim(line);
    SourceSpan {
        path: String::from_str(path),
        start_line: at,
        start_column: 1,
        end_line: at,
        end_column: sat_add(line.len(), 1),
        snippet: Some(string_of(&t)),
        label: some_str(label),
        role: some_str(role),
    }
}


/// Text that reads external input: request objects, superglobals, query parameters.
pub const EXTERNAL_INPUT: &'static str = r"(?i)(request\s*(?:->|\.)|\$_(?:get|post|request|files)|req\.(?:body|query|params)|query_params|search_params|input\s*\(|argv\b|payload\s*(?:\[|\.))";

/// Text that reads like SQL.
pub const SQL_CONTEXT: &'static str = r"(?i)\b(select|insert\s+into|update\s+\w+|delete\s+from|from\s+\w+|where\s+)\b";

/// Text that speaks of cryptography or credentials.
pub const CRYPTO_CONTEXT: &'static str = r"(?i)\b(crypt|cipher|encrypt|decrypt|password|credential|hmac|security|auth|secret|token)\w*\b";

/// Number of UTF-8 bytes that encode a character.
pub open spec fn utf8_width(c: char) -> int {
    let u = c as u32;
    if u < 0x80 { 1 } else if u < 0x800 { 2 } else if u < 0x10000 { 3 } else { 4 }
}

pub open spec fn utf8_length(s: Seq<char>) -> int
    decreases s.len(),
{
    if s.len() == 0 { 0 } else { utf8_length(s.drop_last()) + utf8_width(s.last()) }
}

proof fn lemma_utf8_length_grows(s: Seq<char>, i: int)
    requires
        0 <= i <= s.len(),
    ensures
        utf8_length(s.subrange(0, i)) <= utf8_length(s),
    decreases s.len() - i,
{
    if i < s.len() {
        lemma_utf8_length_grows(s, i + 1);
        assert(s.subrange(0, i + 1).drop_last() =~= s.subrange(0, i));
    } else {
        assert(s.subrange(0, i) =~= s);
    }
}

/// Whether the UTF-8 encoding of `s` takes at least `n` bytes.
fn utf8_length_at_least(s: &Vec<char>, n: usize) -> (res: bool)
    requires
        n < 1000,
    ensures
        res == (utf8_length(s@) >= n),
{
    if n == 0 {
        proof {
            lemma_utf8_length_grows(s@, 0);
            assert(s@.subrange(0, 0) =~= Seq::<char>::empty());
        }
        return true;
    }
    let mut total: usize = 0;
    let mut i: usize = 0;
    while i < s.len()
        invariant
            i <= s@.len(),
            n < 1000,
            total == utf8_length(s@.subrange(0, i as int)),
            total < n,
        decreases s.len() - i,
    {
        let u = s[i] as u32;
        let w: usize = if u < 0x80 { 1 } else if u < 0x800 { 2 } else if u < 0x10000 { 3 } else { 4 };
        proof {
            assert(s@.subrange(0, i + 1).drop_last() =~= s@.subrange(0, i as int));
        }
        total = total + w;
        i = i + 1;
        if total >= n {
            proof {
                lemma_utf8_length_grows(s@, i as int);
            }
            return true;
        }
    }
    proof {
        assert(s@.subrange(0, i as int) =~= s@);
    }
    false
}

/// A quote, semicolon, comma or space, which a value loses at either end.
pub open spec fn is_value_mark(c: char) -> bool {
    c == '"' || c == '\'' || c == ';' || c == ',' || c == ' '
}

/// `s` without the value marks it starts with.
pub open spec fn strip_leading_value_marks(s: Seq<char>) -> Seq<char>
    decreases s.len(),
{
    if s.len() > 0 && is_value_mark(s[0]) { strip_leading_value_marks(s.drop_first()) } else { s }
}

/// `s` without the value marks it ends with.
pub open spec fn strip_trailing_value_marks(s: Seq<char>) -> Seq<char>
    decreases s.len(),
{
    if s.len() > 0 && is_value_mark(s.last()) { strip_trailing_value_marks(s.drop_last()) } else { s }
}

fn in_strip_set(c: char) -> (res: bool)
    ensures
        res == is_value_mark(c),
{
    c == '"' || c == '\'' || c == ';' || c == ',' || c == ' '
}

/// `s` without the quotes, semicolons, commas and spaces at both ends.
fn strip_value_marks(s: &Vec<char>) -> (res: Vec<char>)
    ensures
        res@ == strip_trailing_value_marks(strip_leading_value_marks(s@)),
{
    let n = s.len();
    let mut a: usize = 0;
    assert(s@.subrange(0, n as int) =~= s@);
    while a < s.len() && in_strip_set(s[a])
        invariant
            a <= s@.len(),
            n == s@.len(),
            strip_leading_value_marks(s@) == strip_leading_value_marks(s@.subrange(a as int, n as int)),
        decreases s.len() - a,
    {
        assert(s@.subrange(a as int, n as int).drop_first() =~= s@.subrange(a + 1, n as int));
        a = a + 1;
    }
    let ghost lead = s@.subrange(a as int, n as int);
    assert(lead.subrange(0, (n - a) as int) =~= lead);
    let mut b: usize = s.len();
    while b > a && in_strip_set(s[b - 1])
        invariant
            a <= b <= s@.len(),
            n == s@.len(),
            lead == s@.subrange(a as int, n as int),
            strip_trailing_value_marks(lead) == strip_trailing_value_marks(s@.subrange(a as int, b as int)),
        decreases b,
    {
        assert(s@.subrange(a as int, b as int).drop_last() =~= s@.subrange(a as int, b - 1));
        b = b - 1;
    }
    slice_chars(s, a, b)
}

/// An assignment whose value is a quoted literal of at least eight bytes once its marks
/// at either end are dropped.
pub open spec fn spec_quoted_secret_value(line: Seq<char>) -> bool {
    match crate::text::index_of(line, '=') {
        None => false,
        Some(eq) => {
            let value = crate::text::spec_trim(line.subrange(eq + 1, line.len() as int));
            if value.len() == 0 || (value[0] != '"' && value[0] != '\'') {
                false
            } else {
                utf8_length(strip_trailing_value_marks(strip_leading_value_marks(value))) >= 8
            }
        },
    }
}

/// An assignment whose value is a quoted literal of at least eight bytes.
fn quoted_secret_value(line: &Vec<char>) -> (res: bool)
    ensures
        res == spec_quoted_secret_value(line@),
{
    let n = line.len();
    match find_char(line, '=') {
        None => false,
        Some(eq) => {
            proof {
                crate::text::lemma_index_of_from_bounds(line@, '=', 0);
                assert(crate::text::index_of_from(line@, '=', 0) == Some(eq as int));
            }
            let after = slice_chars(line, eq + 1, n);
            let value = trim(&after);
            if value.len() == 0 || (value[0] != '"' && value[0] != '\'') {
                false
            } else {
                let core = strip_value_marks(&value);
                utf8_length_at_least(&core, 8)
            }
        },
    }
}

/// The pattern matches the text (a pattern that does not compile matches nothing).
pub open spec fn pattern_matches(pattern: Seq<char>, text: Seq<char>) -> bool {
    crate::patterns::spec_regex_is_match(pattern, text) == Some(true)
}

/// The context builds SQL text from pieces.
pub open spec fn dynamic_sql(context: Seq<char>) -> bool {
    seq_contains(context, ".$"@) || seq_contains(context, "${"@) || seq_contains(context, "format!("@) || seq_contains(
        context,
        "sprintf("@,
    ) || seq_contains(context, "+ request"@) || seq_contains(context, "+ req."@)
}

/// Whether a signature match is credible in its local context (lowercase): a secret needs
/// a quoted literal value, SQL injection SQL built from external input, path traversal
/// external input with no sanitising call, command injection and open redirects external
/// input, weak crypto a cryptographic context, unescaped HTML the React property or
/// external input; the other detectors always are.
pub open spec fn spec_credible(detector: Detector, pattern: Seq<char>, matched_line: Seq<char>, context: Seq<char>) -> bool {
    let external = pattern_matches(EXTERNAL_INPUT@, context);
    match detector {
        Detector::HardcodedSecret => spec_quoted_secret_value(matched_line),
        Detector::SqlInjection => pattern_matches(SQL_CONTEXT@, context) && dynamic_sql(context) && external,
        Detector::PathTraversal => external && !seq_contains(context, "uploadedfile"@) && !seq_contains(
            context,
            "getpathname("@,
        ) && !seq_contains(context, "canonicalize("@) && !seq_contains(context, "realpath("@),
        Detector::CommandInjection => external,
        Detector::OpenRedirect => external,
        Detector::WeakCrypto => pattern_matches(CRYPTO_CONTEXT@, context),
        Detector::UnsafeHtml => pattern == "dangerouslysetinnerhtml"@ || external,
        _ => true,
    }
}

/// Whether a signature match is credible in its local context (lowercase).
fn credible(detector: Detector, pattern: &str, matched_line: &Vec<char>, context: &Vec<char>) -> (res: bool)
    ensures
        res == spec_credible(detector, pattern@, matched_line@, context@),
{
    let ctx = string_of(context);
    let external = matches_pattern(EXTERNAL_INPUT, ctx.as_str());
    let sql = matches_pattern(SQL_CONTEXT, ctx.as_str());
    let crypto = matches_pattern(CRYPTO_CONTEXT, ctx.as_str());
    let dynamic_sql = contains_str(context, ".$") || contains_str(context, "${") || contains_str(context, "format!(")
        || contains_str(context, "sprintf(") || contains_str(context, "+ request") || contains_str(context, "+ req.");
    match detector {
        Detector::HardcodedSecret => quoted_secret_value(matched_line),
        Detector::SqlInjection => sql && dynamic_sql && external,
        Detector::PathTraversal => external && !contains_str(context, "uploadedfile") && !contains_str(
            context,
            "getpathname(",
        ) && !contains_str(context, "canonicalize(") && !contains_str(context, "realpath("),
        Detector::CommandInjection | Detector::OpenRedirect => external,
        Detector::WeakCrypto => crypto,
        Detector::UnsafeHtml => str_equal(pattern, "dangerouslysetinnerhtml") || external,
        _ => true,
    }
}

/// A security signature: detector, title, severity, patterns, confidence in thousandths.
pub struct SecurityRule {
    pub detector: Detector,
    pub title: &'static str,
    pub severity: FindingSeverity,
    pub patterns: Vec<&'static str>,
    pub confidence_permille: u32,
}

/// The detectors of the security signatures, in order.
pub open spec fn rule_detectors() -> Seq<Detector> {
    seq![Detector::HardcodedSecret, Detector::CommandInjection, Detector::UnsafeDeserialization, Detector::SqlInjection, Detector::SensitiveLogging, Detector::PathTraversal, Detector::WeakCrypto, Detector::OpenRedirect, Detector::UnsafeHtml]
}

/// The severities of the security signatures, in order.
pub open spec fn rule_severities() -> Seq<FindingSeverity> {
    seq![FindingSeverity::High, FindingSeverity::High, FindingSeverity::High, FindingSeverity::High, FindingSeverity::Medium, FindingSeverity::High, FindingSeverity::Medium, FindingSeverity::Medium, FindingSeverity::High]
}

/// The confidences of the security signatures, in thousandths, in order.
pub open spec fn rule_confidences() -> Seq<u32> {
    seq![720u32, 680u32, 820u32, 740u32, 640u32, 480u32, 780u32, 520u32, 720u32]
}

/// The titles of the security signatures, in order.
pub open spec fn rule_titles() -> Seq<Seq<char>> {
    seq![
            "Secret potentiellement codé en dur"@,
            "Risque potentiel d’injection de commande"@,
            "Désérialisation potentiellement dangereuse"@,
            "Risque potentiel d’injection SQL"@,
            "Journalisation potentielle de données sensibles"@,
            "Risque potentiel de traversée de chemin"@,
            "Algorithme cryptographique faible"@,
            "Redirection ouverte potentielle"@,
            "Sortie HTML potentiellement non échappée"@,
        ]
}

/// The patterns of the security signatures, in order.
pub open spec fn rule_patterns() -> Seq<Seq<Seq<char>>> {
    seq![
            seq!["password ="@, "api_key ="@, "secret ="@, "token ="@],
            seq!["system("@, "exec("@, "command::new"@, "child_process.exec"@],
            seq!["unserialize("@, "pickle.loads"@, "yaml.load("@],
            seq!["->query("@, "->executequery("@, "->executestatement("@, "rawquery("@, "query_raw("@, "format!(\"select"@],
            seq!["log(password"@, "log(token"@, "console.log(password"@, "println!(\"token"@],
            seq!["read_to_string("@, "file_get_contents("@, "send_file("@, "path.join("@],
            seq!["md5("@, "sha1("@, "des::"@, "mode_ecb"@, "cipher::ecb"@],
            seq!["redirect($"@, "redirect(request"@, "location.href ="@],
            seq!["dangerouslysetinnerhtml"@, "|raw"@, "mark_safe("@, "innerhtml ="@],
        ]
}

fn security_rules() -> (res: Vec<SecurityRule>)
    ensures
        forall|k: int| 0 <= k < res@.len() ==> res@[k].detector != Detector::LongFunction,
        res@.len() == 9,
        res@.map_values(|r: SecurityRule| r.detector) == rule_detectors(),
        res@.map_values(|r: SecurityRule| r.severity) == rule_severities(),
        res@.map_values(|r: SecurityRule| r.confidence_permille) == rule_confidences(),
        res@.map_values(|r: SecurityRule| r.title@) == rule_titles(),
        res@.map_values(|r: SecurityRule| r.patterns@.map_values(|p: &str| p@)) == rule_patterns(),
{
    let rules: Vec<SecurityRule> = vec![
        SecurityRule { detector: Detector::HardcodedSecret, title: "Secret potentiellement codé en dur", severity: FindingSeverity::High,
            patterns: vec!["password =", "api_key =", "secret =", "token ="], confidence_permille: 720 },
        SecurityRule { detector: Detector::CommandInjection, title: "Risque potentiel d’injection de commande", severity: FindingSeverity::High,
            patterns: vec!["system(", "exec(", "command::new", "child_process.exec"], confidence_permille: 680 },
        SecurityRule { detector: Detector::UnsafeDeserialization, title: "Désérialisation potentiellement dangereuse", severity: FindingSeverity::High,
            patterns: vec!["unserialize(", "pickle.loads", "yaml.load("], confidence_permille: 820 },
        SecurityRule { detector: Detector::SqlInjection, title: "Risque potentiel d’injection SQL", severity: FindingSeverity::High,
            patterns: vec!["->query(", "->executequery(", "->executestatement(", "rawquery(", "query_raw(", "format!(\"select"], confidence_permille: 740 },
        SecurityRule { detector: Detector::SensitiveLogging, title: "Journalisation potentielle de données sensibles", severity: FindingSeverity::Medium,
            patterns: vec!["log(password", "log(token", "console.log(password", "println!(\"token"], confidence_permille: 640 },
        SecurityRule { detector: Detector::PathTraversal, title: "Risque potentiel de traversée de chemin", severity: FindingSeverity::High,
            patterns: vec!["read_to_string(", "file_get_contents(", "send_file(", "path.join("], confidence_permille: 480 },
        SecurityRule { detector: Detector::WeakCrypto, title: "Algorithme cryptographique faible", severity: FindingSeverity::Medium,
            patterns: vec!["md5(", "sha1(", "des::", "mode_ecb", "cipher::ecb"], confidence_permille: 780 },
        SecurityRule { detector: Detector::OpenRedirect, title: "Redirection ouverte potentielle", severity: FindingSeverity::Medium,
            patterns: vec!["redirect($", "redirect(request", "location.href ="], confidence_permille: 520 },
        SecurityRule { detector: Detector::UnsafeHtml, title: "Sortie HTML potentiellement non échappée", severity: FindingSeverity::High,
            patterns: vec!["dangerouslysetinnerhtml", "|raw", "mark_safe(", "innerhtml ="], confidence_permille: 720 },
    ];
    proof {
        assert(rules@.map_values(|r: SecurityRule| r.detector) =~= rule_detectors());
        assert(rules@.map_values(|r: SecurityRule| r.severity) =~= rule_severities());
        assert(rules@.map_values(|r: SecurityRule| r.confidence_permille) =~= rule_confidences());
        assert(rules@.map_values(|r: SecurityRule| r.title@) =~= rule_titles());
        assert(rules@.map_values(|r: SecurityRule| r.patterns@.map_values(|p: &str| p@)) =~~= rule_patterns());
    }
    rules
}

/// The pattern occurs outside literals somewhere in the line.
pub open spec fn has_code_match(line: Seq<char>, pattern: Seq<char>) -> bool {
    exists|j: int| crate::findings::code_match_at(line, pattern, j)
}

/// The first pattern, in rule order, that occurs outside literals in some lowercase line:
/// the pattern's position, the line and the one-based column.
fn first_signature(patterns: &Vec<&'static str>, lowered_lines: &Vec<Vec<char>>) -> (res: Option<(usize, usize, usize)>)
    ensures
        res matches Some(m) ==> m.0 < patterns@.len() && m.1 < lowered_lines@.len(),
        match res {
            Some(m) => {
                &&& m.2 >= 1
                &&& crate::findings::code_match_at(lowered_lines@[m.1 as int]@, patterns@[m.0 as int]@, m.2 - 1)
                &&& forall|j: int| 0 <= j < m.2 - 1 ==> !crate::findings::code_match_at(
                    lowered_lines@[m.1 as int]@,
                    patterns@[m.0 as int]@,
                    j,
                )
                &&& forall|l: int| 0 <= l < m.1 ==> !has_code_match(#[trigger] lowered_lines@[l]@, patterns@[m.0 as int]@)
                &&& forall|q: int, l: int| 0 <= q < m.0 && 0 <= l < lowered_lines@.len() ==> !has_code_match(
                    #[trigger] lowered_lines@[l]@,
                    #[trigger] patterns@[q]@,
                )
            },
            None => forall|q: int, l: int| 0 <= q < patterns@.len() && 0 <= l < lowered_lines@.len() ==> !has_code_match(
                #[trigger] lowered_lines@[l]@,
                #[trigger] patterns@[q]@,
            ),
        },
{
    let mut p: usize = 0;
    while p < patterns.len()
        invariant
            p <= patterns@.len(),
            forall|q: int, l: int| 0 <= q < p && 0 <= l < lowered_lines@.len() ==> !has_code_match(
                #[trigger] lowered_lines@[l]@,
                #[trigger] patterns@[q]@,
            ),
        decreases patterns.len() - p,
    {
        let pc = chars_of(patterns[p]);
        let mut li: usize = 0;
        while li < lowered_lines.len()
            invariant
                li <= lowered_lines@.len(),
                p < patterns@.len(),
                pc@ == patterns@[p as int]@,
                forall|q: int, l: int| 0 <= q < p && 0 <= l < lowered_lines@.len() ==> !has_code_match(
                    #[trigger] lowered_lines@[l]@,
                    #[trigger] patterns@[q]@,
                ),
                forall|l: int| 0 <= l < li ==> !has_code_match(#[trigger] lowered_lines@[l]@, patterns@[p as int]@),
            decreases lowered_lines.len() - li,
        {
            match pattern_column_outside_literal(&lowered_lines[li], &pc) {
                Some(col) => {
                    return Some((p, li, col));
                },
                None => {
                    assert(!has_code_match(lowered_lines@[li as int]@, patterns@[p as int]@));
                },
            }
            li = li + 1;
        }
        p = p + 1;
    }
    None
}

/// Each line in lowercase.
pub open spec fn lowercase_lines(lines: Seq<Seq<char>>) -> Seq<Seq<char>> {
    lines.map_values(|l: Seq<char>| spec_to_lowercase(l))
}

/// `m` is where the first signature of `patterns` stands in `lines`: the first pattern that
/// occurs outside literals in some line, the first line where it does, and the one-based column
/// of its first such occurrence there.
pub open spec fn first_signature_at(patterns: Seq<Seq<char>>, lines: Seq<Seq<char>>, m: (int, int, int)) -> bool {
    &&& 0 <= m.0 < patterns.len()
    &&& 0 <= m.1 < lines.len()
    &&& m.2 >= 1
    &&& crate::findings::code_match_at(lines[m.1], patterns[m.0], m.2 - 1)
    &&& forall|j: int| 0 <= j < m.2 - 1 ==> !crate::findings::code_match_at(lines[m.1], patterns[m.0], j)
    &&& forall|l: int| 0 <= l < m.1 ==> !has_code_match(#[trigger] lines[l], patterns[m.0])
    &&& forall|q: int, l: int| 0 <= q < m.0 && 0 <= l < lines.len() ==> !has_code_match(
        #[trigger] lines[l],
        #[trigger] patterns[q],
    )
}

/// The first line of the context shown around a matched line: three lines before it.
pub open spec fn context_first_line(line: int) -> int {
    if line >= 3 { line - 3 } else { 0 }
}

/// The security rule at position `r` reports on these source lines: its first signature stands
/// in their lowercase form and is credible there, given the lowercase text of the seven lines
/// from three lines before it.
pub open spec fn rule_fires(r: int, lines: Seq<Seq<char>>) -> bool {
    exists|m: (int, int, int)|
        first_signature_at(rule_patterns()[r], lowercase_lines(lines), m) && spec_credible(
            rule_detectors()[r],
            rule_patterns()[r][m.0],
            lines[m.1],
            spec_to_lowercase(spec_join(rows_window(lines, context_first_line(m.1), 7), "\n"@)),
        )
}

/// The positions, among the first `n` security rules, of those that report on these lines.
pub open spec fn fired_rules(lines: Seq<Seq<char>>, n: int) -> Seq<int>
    decreases n,
{
    if n <= 0 {
        seq![]
    } else {
        fired_rules(lines, n - 1) + if rule_fires(n - 1, lines) { seq![n - 1] } else { seq![] }
    }
}

/// A first signature, where there is one, stands at one place only.
pub proof fn lemma_first_signature_unique(patterns: Seq<Seq<char>>, lines: Seq<Seq<char>>, a: (int, int, int), b: (int, int, int))
    requires
        first_signature_at(patterns, lines, a),
        first_signature_at(patterns, lines, b),
    ensures
        a == b,
{
    assert(has_code_match(lines[a.1], patterns[a.0]));
    assert(has_code_match(lines[b.1], patterns[b.0]));
    if a.0 < b.0 {
        assert(!has_code_match(lines[a.1], patterns[a.0]));
    }
    if b.0 < a.0 {
        assert(!has_code_match(lines[b.1], patterns[b.0]));
    }
    assert(a.0 == b.0);
    if a.1 < b.1 {
        assert(!has_code_match(lines[a.1], patterns[b.0]));
    }
    if b.1 < a.1 {
        assert(!has_code_match(lines[b.1], patterns[a.0]));
    }
    assert(a.1 == b.1);
    if a.2 < b.2 {
        assert(!crate::findings::code_match_at(lines[b.1], patterns[b.0], a.2 - 1));
    }
    if b.2 < a.2 {
        assert(!crate::findings::code_match_at(lines[a.1], patterns[a.0], b.2 - 1));
    }
}

/// Security findings for one function's source lines.
fn security_findings(
    project_id: &str,
    node: &CodeNode,
    path: &str,
    base: usize,
    source_lines: &Vec<Vec<char>>,
    snippet_hash: &String,
) -> (res: Vec<Finding>)
    ensures
        other_findings_at(res@, node.path),
        all_issued_for(res@, project_id@, node.id@),
        ({
            let fired = fired_rules(source_lines@.map_values(|l: Vec<char>| l@), 9);
            &&& res@.len() == fired.len()
            &&& forall|k: int| 0 <= k < res@.len() ==> {
                &&& (#[trigger] res@[k]).detector@ == rule_detectors()[fired[k]].spec_name()
                &&& res@[k].severity == rule_severities()[fired[k]]
                &&& res@[k].confidence_permille == rule_confidences()[fired[k]]
                &&& res@[k].category == FindingCategory::Security
                &&& res@[k].node_ids@ == seq![node.id]
            }
        }),
{
    let ghost lines = source_lines@.map_values(|l: Vec<char>| l@);
    let mut lowered_lines: Vec<Vec<char>> = Vec::new();
    let mut i: usize = 0;
    while i < source_lines.len()
        invariant
            i <= source_lines@.len(),
            lowered_lines@.len() == i,
            forall|k: int| 0 <= k < i ==> (#[trigger] lowered_lines@[k])@ == spec_to_lowercase(source_lines@[k]@),
        decreases source_lines.len() - i,
    {
        lowered_lines.push(lowered(&source_lines[i]));
        i = i + 1;
    }
    let ghost low = lowered_lines@.map_values(|l: Vec<char>| l@);
    assert(low =~= lowercase_lines(lines));
    let rules = security_rules();
    let mut out: Vec<Finding> = Vec::new();
    let mut r: usize = 0;
    while r < rules.len()
        invariant
            r <= rules@.len(),
            rules@.len() == 9,
            lines == source_lines@.map_values(|l: Vec<char>| l@),
            low == lowered_lines@.map_values(|l: Vec<char>| l@),
            low == lowercase_lines(lines),
            lowered_lines@.len() == source_lines@.len(),
            forall|k: int| 0 <= k < rules@.len() ==> rules@[k].detector != Detector::LongFunction,
            rules@.map_values(|r: SecurityRule| r.detector) == rule_detectors(),
            rules@.map_values(|r: SecurityRule| r.severity) == rule_severities(),
            rules@.map_values(|r: SecurityRule| r.confidence_permille) == rule_confidences(),
            rules@.map_values(|r: SecurityRule| r.patterns@.map_values(|p: &str| p@)) == rule_patterns(),
            other_findings_at(out@, node.path),
            all_issued_for(out@, project_id@, node.id@),
            out@.len() == fired_rules(lines, r as int).len(),
            forall|k: int| 0 <= k < out@.len() ==> {
                &&& (#[trigger] out@[k]).detector@ == rule_detectors()[fired_rules(lines, r as int)[k]].spec_name()
                &&& out@[k].severity == rule_severities()[fired_rules(lines, r as int)[k]]
                &&& out@[k].confidence_permille == rule_confidences()[fired_rules(lines, r as int)[k]]
                &&& out@[k].category == FindingCategory::Security
                &&& out@[k].node_ids@ == seq![node.id]
            },
        decreases rules.len() - r,
    {
        let rule = &rules[r];
        let ghost pats = rule.patterns@.map_values(|p: &str| p@);
        proof {
            assert(rules@.map_values(|r: SecurityRule| r.detector)[r as int] == rule_detectors()[r as int]);
            assert(rules@.map_values(|r: SecurityRule| r.severity)[r as int] == rule_severities()[r as int]);
            assert(rules@.map_values(|r: SecurityRule| r.confidence_permille)[r as int] == rule_confidences()[r as int]);
            assert(rules@.map_values(|r: SecurityRule| r.patterns@.map_values(|p: &str| p@))[r as int] == rule_patterns()[r as int]);
            assert(pats == rule_patterns()[r as int]);
            assert(fired_rules(lines, r + 1) == fired_rules(lines, r as int) + if rule_fires(r as int, lines) {
                seq![r as int]
            } else {
                seq![]
            });
        }
        let ghost before = out@;
        match first_signature(&rule.patterns, &lowered_lines) {
            None => {
                proof {
                    if rule_fires(r as int, lines) {
                        let m = choose|m: (int, int, int)|
                            first_signature_at(rule_patterns()[r as int], lowercase_lines(lines), m) && spec_credible(
                                rule_detectors()[r as int],
                                rule_patterns()[r as int][m.0],
                                lines[m.1],
                                spec_to_lowercase(spec_join(rows_window(lines, context_first_line(m.1), 7), "\n"@)),
                            );
                        assert(crate::findings::code_match_at(low[m.1], pats[m.0], m.2 - 1));
                        assert(lowered_lines@[m.1]@ == low[m.1]);
                        assert(rule.patterns@[m.0]@ == pats[m.0]);
                        assert(has_code_match(lowered_lines@[m.1]@, rule.patterns@[m.0]@));
                    }
                }
            },
            Some((pi, mi, col)) => {
                let pattern = rule.patterns[pi];
                let matched_line = &source_lines[mi];
                let context_start = if mi >= 3 { mi - 3 } else { 0 };
                let joined = join_rows(source_lines, context_start, 7, "\n");
                let context = lowered(&joined);
                let ghost m = (pi as int, mi as int, col as int);
                proof {
                    assert forall|l: int| 0 <= l < low.len() implies low[l] == lowered_lines@[l]@ by {}
                    assert forall|q: int| 0 <= q < pats.len() implies pats[q] == rule.patterns@[q]@ by {}
                    assert(first_signature_at(pats, low, m));
                    assert(lines[mi as int] == matched_line@);
                    assert(context_first_line(mi as int) == context_start as int);
                    let c = spec_to_lowercase(spec_join(rows_window(lines, context_first_line(m.1), 7), "\n"@));
                    assert(context@ == c);
                    if rule_fires(r as int, lines) {
                        let m2 = choose|m2: (int, int, int)|
                            first_signature_at(rule_patterns()[r as int], lowercase_lines(lines), m2) && spec_credible(
                                rule_detectors()[r as int],
                                rule_patterns()[r as int][m2.0],
                                lines[m2.1],
                                spec_to_lowercase(spec_join(rows_window(lines, context_first_line(m2.1), 7), "\n"@)),
                            );
                        lemma_first_signature_unique(pats, low, m, m2);
                    }
                }
                if credible(rule.detector, pattern, matched_line, &context) {
                    let mut detected = node_finding(
                        project_id,
                        node,
                        FindingCategory::Security,
                        rule.severity,
                        rule.title,
                        cat(node.name.as_str(), " contient un motif qui nécessite une vérification de sécurité ciblée."),
                        cat("motif détecté : ", pattern),
                        Vec::new(),
                        rule.detector,
                        rule.confidence_permille,
                        snippet_hash.clone(),
                    );
                    let at = sat_add(base, mi);
                    let pattern_len = chars_of(pattern).len();
                    let t = trim(matched_line);
                    let sink = SourceSpan {
                        path: String::from_str(path),
                        start_line: at,
                        start_column: col,
                        end_line: at,
                        end_column: sat_add(col, pattern_len),
                        snippet: Some(string_of(&t)),
                        label: Some(cat("Motif ", pattern)),
                        role: some_str("sink"),
                    };
                    let mut spans: Vec<SourceSpan> = Vec::new();
                    let mut j = context_start;
                    let mut found = false;
                    while j < source_lines.len() && j < sat_add(context_start, 7) && !found
                        invariant
                            context_start <= j,
                        decreases source_lines.len() - j,
                    {
                        if j != mi {
                            let line_text = string_of(&source_lines[j]);
                            if matches_pattern(EXTERNAL_INPUT, line_text.as_str()) {
                                spans.push(line_span(path, base, j, &source_lines[j], "Entrée potentiellement contrôlée", "source"));
                                found = true;
                            }
                        }
                        j = j + 1;
                    }
                    spans.push(clone_span(&sink));
                    detected.primary_span = Some(sink);
                    detected.evidence_spans = spans;
                    let ghost out_before = out@;
                    out.push(detected);
                    proof {
                        assert(out@ =~= out_before + seq![detected]);
                        lemma_issued_append(out_before, seq![detected], project_id@, node.id@);
                    }
                }
            },
        }
        proof {
            let f = fired_rules(lines, r + 1);
            assert forall|k: int| 0 <= k < out@.len() implies {
                &&& (#[trigger] out@[k]).detector@ == rule_detectors()[f[k]].spec_name()
                &&& out@[k].severity == rule_severities()[f[k]]
                &&& out@[k].confidence_permille == rule_confidences()[f[k]]
                &&& out@[k].category == FindingCategory::Security
                &&& out@[k].node_ids@ == seq![node.id]
            } by {
                if k < before.len() {
                    assert(out@[k] == before[k]);
                    assert(f[k] == fired_rules(lines, r as int)[k]);
                }
            }
        }
        r = r + 1;
    }
    out
}


fn contains_any(hay: &Vec<char>, a: &str, b: &str, c: &str) -> (res: bool)
    ensures
        res == (seq_contains(hay@, a@) || seq_contains(hay@, b@) || seq_contains(hay@, c@)),
{
    contains_str(hay, a) || contains_str(hay, b) || contains_str(hay, c)
}

/// The text holds one of the three markers.
pub open spec fn holds_any(hay: Seq<char>, a: Seq<char>, b: Seq<char>, c: Seq<char>) -> bool {
    seq_contains(hay, a) || seq_contains(hay, b) || seq_contains(hay, c)
}

/// The first line whose lowercase form holds one of the three markers.
fn first_line_with_any(lines: &Vec<Vec<char>>, a: &str, b: &str, c: &str) -> (res: Option<usize>)
    ensures
        res matches Some(k) ==> k < lines@.len(),
        match res {
            Some(k) => holds_any(spec_to_lowercase(lines@[k as int]@), a@, b@, c@) && forall|j: int|
                0 <= j < k ==> !holds_any(spec_to_lowercase(#[trigger] lines@[j]@), a@, b@, c@),
            None => forall|j: int| 0 <= j < lines@.len() ==> !holds_any(spec_to_lowercase(#[trigger] lines@[j]@), a@, b@, c@),
        },
{
    let mut k: usize = 0;
    while k < lines.len()
        invariant
            k <= lines@.len(),
            forall|j: int| 0 <= j < k ==> !holds_any(spec_to_lowercase(#[trigger] lines@[j]@), a@, b@, c@),
        decreases lines.len() - k,
    {
        let l = lowered(&lines[k]);
        if contains_any(&l, a, b, c) {
            return Some(k);
        }
        k = k + 1;
    }
    None
}

/// The text of a function: up to `lines` (at most 500) lines of its file from its start line on.
pub open spec fn function_snippet(node: CodeNode, lines: int, text: Seq<char>) -> Seq<char> {
    let base = match node.start_line {
        Some(l) => l as int,
        None => 1,
    };
    let skip = if base >= 1 { base - 1 } else { 0 };
    let take = if lines < 500 { lines } else { 500 };
    spec_join(rows_window(spec_lines(text), skip, take), "\n"@)
}

/// The detectors that report on a function's text, in the order their findings come: branching
/// complexity, a long parameter list in its first five lines, the security rules that fire, and
/// input/output inside a loop.
pub open spec fn source_detectors(snippet: Seq<char>) -> Seq<Seq<char>> {
    let lower = spec_to_lowercase(snippet);
    let rows = spec_lines(snippet);
    let complexity = token_total(lower, branch_tokens(), branch_tokens().len() as int);
    let params = spec_parameter_count(spec_join(rows_window(rows, 0, 5), " "@));
    (if complexity >= 25 { seq![Detector::CyclomaticComplexity.spec_name()] } else { seq![] })
        + (if params matches Some(c) && c >= 7 { seq![Detector::TooManyParameters.spec_name()] } else { seq![] })
        + fired_rules(rows, 9).map_values(|r: int| rule_detectors()[r].spec_name())
        + (if holds_any(lower, "for "@, "foreach"@, "while "@) && holds_any(lower, "->query("@, "fetch("@, "reqwest"@) {
            seq![Detector::IoInsideLoop.spec_name()]
        } else {
            seq![]
        })
}

/// Findings read from a function's source text: branching complexity, long parameter lists,
/// security signatures and input/output inside loops.
fn source_findings(
    project_id: &str,
    node: &CodeNode,
    path: &str,
    lines: usize,
    source_hash: &String,
    sources: &Vec<SourceText>,
) -> (res: Vec<Finding>)
    ensures
        other_findings_at(res@, node.path),
        all_issued_for(res@, project_id@, node.id@),
        res@.map_values(|f: Finding| f.detector@) == source_detectors(
            function_snippet(*node, lines as int, source_text_of(sources@, path@)),
        ),
{
    let text = source_for(sources, path);
    let rows = split_lines(&text);
    assert(rows@.map_values(|r: Vec<char>| r@) =~= spec_lines(text@));
    let base = match node.start_line {
        Some(l) => l,
        None => 1,
    };
    let skip = if base >= 1 { base - 1 } else { 0 };
    let take = if lines < 500 { lines } else { 500 };
    let snippet = join_rows(&rows, skip, take, "\n");
    let snippet_text = string_of(&snippet);
    let lower = lowered(&snippet);
    let source_lines = split_lines(&snippet);
    let ghost sl = source_lines@.map_values(|r: Vec<char>| r@);
    assert(sl =~= spec_lines(snippet@));
    assert(snippet@ == function_snippet(*node, lines as int, source_text_of(sources@, path@)));
    let ghost target = source_detectors(snippet@);
    let mut parts: Vec<String> = Vec::new();
    parts.push(snippet_text);
    let snippet_hash = stable_hash(&parts);
    let mut out: Vec<Finding> = Vec::new();
    let complexity = branch_complexity(&lower);
    if complexity >= 25 {
        let f = node_finding(
            project_id,
            node,
            FindingCategory::Quality,
            if complexity >= 30 { FindingSeverity::High } else { FindingSeverity::Medium },
            "Complexité cyclomatique élevée",
            cat3(node.name.as_str(), " présente une complexité de branchement estimée à ", cat(number(complexity).as_str(), ".").as_str()),
            cat("complexité de branchement estimée : ", number(complexity).as_str()),
            Vec::new(),
            Detector::CyclomaticComplexity,
            780,
            source_hash.clone(),
        );
        out.push(f);
        assert(out@ =~= seq![f]);
    }
    let ghost after_complexity = out@;
    assert(out@.map_values(|f: Finding| f.detector@) =~= (if token_total(lower@, branch_tokens(), branch_tokens().len() as int) >= 25 {
        seq![Detector::CyclomaticComplexity.spec_name()]
    } else {
        seq![]
    }));
    let signature = join_rows(&source_lines, 0, 5, " ");
    match parameter_count(&signature) {
        Some(count) => {
            if count >= 7 {
                let mut detected = node_finding(
                    project_id,
                    node,
                    FindingCategory::Quality,
                    FindingSeverity::Medium,
                    "Trop de paramètres",
                    cat3(node.name.as_str(), " déclare environ ", cat(number(count).as_str(), " paramètres.").as_str()),
                    cat("nombre de paramètres : ", number(count).as_str()),
                    Vec::new(),
                    Detector::TooManyParameters,
                    820,
                    source_hash.clone(),
                );
                match (first_row_with(&source_lines, 5, '('), first_row_with(&source_lines, 5, ')')) {
                    (Some((si, sc)), Some((ei, ec))) => {
                        assert(issued_for(detected, project_id@, node.id@));
                        let span = SourceSpan {
                            path: String::from_str(path),
                            start_line: sat_add(base, si),
                            start_column: sat_add(sc, 1),
                            end_line: sat_add(base, ei),
                            end_column: sat_add(ec, 2),
                            snippet: Some(string_of(&signature)),
                            label: Some(cat3("Signature avec ", number(count).as_str(), " paramètres")),
                            role: some_str("signature"),
                        };
                        let mut spans: Vec<SourceSpan> = Vec::new();
                        spans.push(clone_span(&span));
                        detected.primary_span = Some(span);
                        detected.evidence_spans = spans;
                    },
                    _ => {},
                }
                let ghost out_before = out@;
                out.push(detected);
                proof {
                    assert(out@ =~= out_before + seq![detected]);
                    lemma_issued_append(out_before, seq![detected], project_id@, node.id@);
                }
            }
        },
        None => {},
    }
    let ghost params = spec_parameter_count(spec_join(rows_window(sl, 0, 5), " "@));
    let ghost head = (if token_total(lower@, branch_tokens(), branch_tokens().len() as int) >= 25 {
        seq![Detector::CyclomaticComplexity.spec_name()]
    } else {
        seq![]
    }) + (if params matches Some(c) && c >= 7 { seq![Detector::TooManyParameters.spec_name()] } else { seq![] });
    assert(out@.map_values(|f: Finding| f.detector@) =~= head);
    let mut security = security_findings(project_id, node, path, base, &source_lines, &snippet_hash);
    let ghost fired = fired_rules(sl, 9);
    assert(security@.map_values(|f: Finding| f.detector@) =~= fired.map_values(|r: int| rule_detectors()[r].spec_name()));
    let ghost before_security = out@;
    let ghost security_found = security@;
    out.append(&mut security);
    proof {
        assert(out@ =~= before_security + security_found);
        lemma_issued_append(before_security, security_found, project_id@, node.id@);
    }
    assert(out@.map_values(|f: Finding| f.detector@) =~= before_security.map_values(|f: Finding| f.detector@)
        + fired.map_values(|r: int| rule_detectors()[r].spec_name()));
    let ghost before_io = out@;
    if contains_any(&lower, "for ", "foreach", "while ") && contains_any(&lower, "->query(", "fetch(", "reqwest") {
        let mut detected = node_finding(
            project_id,
            node,
            FindingCategory::Performance,
            FindingSeverity::Medium,
            "Appel d’entrée/sortie dans une boucle",
            cat(node.name.as_str(), " combine une boucle avec un accès base de données ou réseau."),
            String::from_str("une boucle et un appel d’E/S apparaissent dans la même fonction"),
            Vec::new(),
            Detector::IoInsideLoop,
            550,
            snippet_hash.clone(),
        );
        let mut spans: Vec<SourceSpan> = Vec::new();
        match first_line_with_any(&source_lines, "for ", "foreach", "while ") {
            Some(k) => {
                spans.push(line_span(path, base, k, &source_lines[k], "Boucle", "control"));
            },
            None => {},
        }
        match first_line_with_any(&source_lines, "->query(", "fetch(", "reqwest") {
            Some(k) => {
                spans.push(line_span(path, base, k, &source_lines[k], "Appel d’entrée/sortie", "sink"));
            },
            None => {},
        }
        detected.primary_span = if spans.len() > 0 {
            Some(clone_span(&spans[spans.len() - 1]))
        } else {
            None
        };
        detected.evidence_spans = spans;
        out.push(detected);
        assert(out@.map_values(|f: Finding| f.detector@) =~= before_io.map_values(|f: Finding| f.detector@)
            + seq![Detector::IoInsideLoop.spec_name()]);
        proof {
            assert(out@ =~= before_io + seq![detected]);
            lemma_issued_append(before_io, seq![detected], project_id@, node.id@);
        }
    }
    assert(out@.map_values(|f: Finding| f.detector@) =~= target);
    out
}

/// All findings about the inspected node `i`.
fn node_findings(
    project_id: &str,
    graph: &ProjectGraph,
    i: usize,
    sources: &Vec<SourceText>,
    cycles: &mut Vec<(String, String)>,
) -> (res: Vec<Finding>)
    requires
        i < graph.nodes@.len(),
        inspected(graph.nodes@[i as int]),
    ensures
        forall|k: int| 0 <= k < res@.len() ==> (#[trigger] res@[k]).path == graph.nodes@[i as int].path,
        long_function_applies(graph.nodes@[i as int]) ==> exists|k: int| 0 <= k < res@.len()
            && (#[trigger] res@[k]).detector@ == Detector::LongFunction.spec_name()
            && res@[k].node_ids@ == seq![graph.nodes@[i as int].id],
        forall|k: int| 0 <= k < res@.len() && (#[trigger] res@[k]).detector@ == Detector::LongFunction.spec_name()
            ==> long_function_applies(graph.nodes@[i as int]) && res@[k].node_ids@ == seq![graph.nodes@[i as int].id]
            && res@[k].severity == long_function_severity(graph.nodes@[i as int]),
        all_issued_for(res@, project_id@, graph.nodes@[i as int].id@),
        long_finding_nodes(res@) == if long_function_applies(graph.nodes@[i as int]) {
            seq![seq![graph.nodes@[i as int].id]]
        } else {
            seq![]
        },
{
    let node = &graph.nodes[i];
    let path: &str = match &node.path {
        Some(p) => p.as_str(),
        None => "",
    };
    let test_file = test_or_fixture(path);
    let lines = line_count(node);
    let mut parts: Vec<String> = Vec::new();
    parts.push(String::from_str(path));
    parts.push(number(match node.start_line { Some(l) => l, None => 0 }));
    parts.push(number(match node.end_line { Some(l) => l, None => 0 }));
    let source_hash = stable_hash(&parts);
    let mut out: Vec<Finding> = Vec::new();
    let function_like = node.kind == NodeKind::Function || node.kind == NodeKind::Method
        || node.kind == NodeKind::Constructor;
    if function_like && lines >= 120 && !test_file {
        let d = cat3(node.name.as_str(), " contient ", number(lines).as_str());
        let f = node_finding(
            project_id,
            node,
            FindingCategory::Quality,
            if lines >= 250 { FindingSeverity::High } else { FindingSeverity::Medium },
            "Fonction très longue",
            cat(d.as_str(), " lignes et devient difficile à relire et à tester isolément."),
            cat(number(lines).as_str(), " lignes de code source"),
            Vec::new(),
            Detector::LongFunction,
            980,
            source_hash.clone(),
        );
        out.push(f);
        assert(out@[0].detector@ == Detector::LongFunction.spec_name());
    }
    let ghost first = out@;
    proof {
        if first.len() > 0 {
            assert(first =~= seq![first[0]]);
            assert(first.drop_last() =~= Seq::<Finding>::empty());
            assert(long_finding_nodes(first.drop_last()) =~= Seq::<Seq<String>>::empty());
            assert(long_finding_nodes(first) =~= seq![first[0].node_ids@]);
            assert(long_function_applies(graph.nodes@[i as int]));
        } else {
            assert(first =~= Seq::<Finding>::empty());
            assert(long_finding_nodes(first) =~= Seq::<Seq<String>>::empty());
            assert(!long_function_applies(graph.nodes@[i as int]));
        }
        assert forall|k: int| 0 <= k < first.len() implies issued_for(#[trigger] first[k], project_id@, node.id@) by {}
    }
    let mut structural = structural_findings(project_id, graph, i, lines, test_file, &source_hash, cycles);
    let ghost structural_found = structural@;
    out.append(&mut structural);
    proof {
        assert(out@ =~= first + structural_found);
        lemma_issued_append(first, structural_found, project_id@, node.id@);
        lemma_long_finding_nodes_append(first, structural_found);
        lemma_no_long_finding(structural_found);
        assert(long_finding_nodes(first) + Seq::<Seq<String>>::empty() =~= long_finding_nodes(first));
    }
    if function_like {
        let ghost middle = out@;
        let mut from_source = source_findings(project_id, node, path, lines, &source_hash, sources);
        let ghost source_found = from_source@;
        out.append(&mut from_source);
        proof {
            assert(out@ =~= middle + source_found);
            lemma_issued_append(middle, source_found, project_id@, node.id@);
            lemma_long_finding_nodes_append(middle, source_found);
            lemma_no_long_finding(source_found);
            assert(long_finding_nodes(middle) + Seq::<Seq<String>>::empty() =~= long_finding_nodes(middle));
        }
    }
    proof {
        assert forall|k: int| 0 <= k < out@.len() && (#[trigger] out@[k]).detector@ == Detector::LongFunction.spec_name()
            implies k < first.len() by {
            if k >= first.len() {
                assert(out@[k].detector@ != Detector::LongFunction.spec_name());
            }
        }
        if long_function_applies(graph.nodes@[i as int]) {
            assert(out@[0] == first[0]);
        }
    }
    out
}

/// The nodes named by the long-function findings, in order.
pub open spec fn long_finding_nodes(v: Seq<Finding>) -> Seq<Seq<String>>
    decreases v.len(),
{
    if v.len() == 0 {
        seq![]
    } else {
        long_finding_nodes(v.drop_last()) + if v.last().detector@ == Detector::LongFunction.spec_name() {
            seq![v.last().node_ids@]
        } else {
            seq![]
        }
    }
}

/// The single-node lists of the long functions among the first `n` nodes, in order.
pub open spec fn long_function_nodes(nodes: Seq<CodeNode>, n: int) -> Seq<Seq<String>>
    decreases n,
{
    if n <= 0 {
        seq![]
    } else {
        long_function_nodes(nodes, n - 1) + if long_function_applies(nodes[n - 1]) { seq![seq![nodes[n - 1].id]] } else { seq![] }
    }
}

proof fn lemma_long_finding_nodes_append(a: Seq<Finding>, b: Seq<Finding>)
    ensures
        long_finding_nodes(a + b) == long_finding_nodes(a) + long_finding_nodes(b),
    decreases b.len(),
{
    if b.len() == 0 {
        assert(a + b =~= a);
    } else {
        lemma_long_finding_nodes_append(a, b.drop_last());
        assert((a + b).drop_last() =~= a + b.drop_last());
        assert((a + b).last() == b.last());
    }
}

proof fn lemma_no_long_finding(v: Seq<Finding>)
    requires
        forall|k: int| 0 <= k < v.len() ==> (#[trigger] v[k]).detector@ != Detector::LongFunction.spec_name(),
    ensures
        long_finding_nodes(v) == Seq::<Seq<String>>::empty(),
    decreases v.len(),
{
    if v.len() > 0 {
        assert forall|k: int| 0 <= k < v.drop_last().len() implies (#[trigger] v.drop_last()[k]).detector@
            != Detector::LongFunction.spec_name() by {
            assert(v.drop_last()[k] == v[k]);
        }
        lemma_no_long_finding(v.drop_last());
    }
}

/// Every finding is in scope.
#[verifier::opaque]
pub open spec fn all_in_scope(g: ProjectGraph, out: Seq<Finding>) -> bool {
    forall|k: int| 0 <= k < out.len() ==> in_scope(g, #[trigger] out[k])
}

/// Each long function before `i` has its finding.
#[verifier::opaque]
pub open spec fn long_functions_reported(g: ProjectGraph, out: Seq<Finding>, i: int) -> bool {
    forall|j: int| 0 <= j < i && long_function_applies(#[trigger] g.nodes@[j]) ==> exists|k: int|
        0 <= k < out.len() && out[k].detector@ == Detector::LongFunction.spec_name()
        && out[k].node_ids@ == seq![g.nodes@[j].id]
}

/// Each long-function finding names a long function.
#[verifier::opaque]
pub open spec fn long_function_reports_sound(g: ProjectGraph, out: Seq<Finding>) -> bool {
    forall|k: int| 0 <= k < out.len() && (#[trigger] out[k]).detector@ == Detector::LongFunction.spec_name()
        ==> exists|j: int| 0 <= j < g.nodes@.len() && long_function_applies(g.nodes@[j])
        && out[k].node_ids@ == seq![g.nodes@[j].id] && out[k].severity == long_function_severity(g.nodes@[j])
}

proof fn lemma_detection_start(g: ProjectGraph, out: Seq<Finding>)
    requires
        out.len() == 0,
    ensures
        all_in_scope(g, out),
        long_functions_reported(g, out, 0),
        long_function_reports_sound(g, out),
{
    reveal(all_in_scope);
    reveal(long_functions_reported);
    reveal(long_function_reports_sound);
}

#[verifier::spinoff_prover]
#[verifier::rlimit(40)]
proof fn lemma_detection_done(g: ProjectGraph, out: Seq<Finding>)
    requires
        all_in_scope(g, out),
        long_functions_reported(g, out, g.nodes@.len() as int),
        long_function_reports_sound(g, out),
    ensures
        forall|k: int| 0 <= k < out.len() ==> in_scope(g, #[trigger] out[k]),
        forall|i: int| 0 <= i < g.nodes@.len() && long_function_applies(#[trigger] g.nodes@[i]) ==> exists|k: int|
            0 <= k < out.len() && out[k].detector@ == Detector::LongFunction.spec_name()
            && out[k].node_ids@ == seq![g.nodes@[i].id],
        forall|k: int| 0 <= k < out.len() && (#[trigger] out[k]).detector@ == Detector::LongFunction.spec_name()
            ==> exists|i: int| 0 <= i < g.nodes@.len() && long_function_applies(g.nodes@[i])
            && out[k].node_ids@ == seq![g.nodes@[i].id] && out[k].severity == long_function_severity(g.nodes@[i]),
{
    reveal(all_in_scope);
    reveal(long_functions_reported);
    reveal(long_function_reports_sound);
}

proof fn lemma_skip_node(g: ProjectGraph, out: Seq<Finding>, i: int)
    requires
        0 <= i < g.nodes@.len(),
        !inspected(g.nodes@[i]),
        long_functions_reported(g, out, i),
    ensures
        long_functions_reported(g, out, i + 1),
{
    reveal(long_functions_reported);
}

proof fn lemma_extend_scope(g: ProjectGraph, before: Seq<Finding>, added: Seq<Finding>, i: int)
    requires
        0 <= i < g.nodes@.len(),
        inspected(g.nodes@[i]),
        all_in_scope(g, before),
        forall|k: int| 0 <= k < added.len() ==> (#[trigger] added[k]).path == g.nodes@[i].path,
    ensures
        all_in_scope(g, before + added),
{
    reveal(all_in_scope);
    reveal(long_functions_reported);
    reveal(long_function_reports_sound);
    let out = before + added;
    assert forall|k: int| 0 <= k < out.len() implies in_scope(g, #[trigger] out[k]) by {
        if k >= before.len() {
            assert(out[k] == added[k - before.len()]);
            assert(out[k].path == g.nodes@[i].path);
        } else {
            assert(out[k] == before[k]);
        }
    }
}

proof fn lemma_extend_reported(g: ProjectGraph, before: Seq<Finding>, added: Seq<Finding>, i: int)
    requires
        0 <= i < g.nodes@.len(),
        long_functions_reported(g, before, i),
        long_function_applies(g.nodes@[i]) ==> exists|k: int| 0 <= k < added.len()
            && (#[trigger] added[k]).detector@ == Detector::LongFunction.spec_name()
            && added[k].node_ids@ == seq![g.nodes@[i].id],
    ensures
        long_functions_reported(g, before + added, i + 1),
{
    reveal(all_in_scope);
    reveal(long_functions_reported);
    reveal(long_function_reports_sound);
    let out = before + added;
    assert forall|j: int| 0 <= j < i + 1 && long_function_applies(#[trigger] g.nodes@[j]) implies exists|k: int|
        0 <= k < out.len() && out[k].detector@ == Detector::LongFunction.spec_name()
        && out[k].node_ids@ == seq![g.nodes@[j].id] by {
        if j == i {
            let k0 = choose|k0: int| 0 <= k0 < added.len() && (#[trigger] added[k0]).detector@
                == Detector::LongFunction.spec_name() && added[k0].node_ids@ == seq![g.nodes@[i].id];
            assert(out[before.len() + k0] == added[k0]);
        } else {
            let k0 = choose|k0: int| 0 <= k0 < before.len() && before[k0].detector@
                == Detector::LongFunction.spec_name() && before[k0].node_ids@ == seq![g.nodes@[j].id];
            assert(out[k0] == before[k0]);
        }
    }
}

proof fn lemma_extend_sound(g: ProjectGraph, before: Seq<Finding>, added: Seq<Finding>, i: int)
    requires
        0 <= i < g.nodes@.len(),
        long_function_reports_sound(g, before),
        forall|k: int| 0 <= k < added.len() && (#[trigger] added[k]).detector@ == Detector::LongFunction.spec_name()
            ==> long_function_applies(g.nodes@[i]) && added[k].node_ids@ == seq![g.nodes@[i].id]
            && added[k].severity == long_function_severity(g.nodes@[i]),
    ensures
        long_function_reports_sound(g, before + added),
{
    reveal(all_in_scope);
    reveal(long_functions_reported);
    reveal(long_function_reports_sound);
    let out = before + added;
    assert forall|k: int| 0 <= k < out.len() && (#[trigger] out[k]).detector@ == Detector::LongFunction.spec_name()
        implies exists|j: int| 0 <= j < g.nodes@.len() && long_function_applies(g.nodes@[j])
        && out[k].node_ids@ == seq![g.nodes@[j].id] && out[k].severity == long_function_severity(g.nodes@[j]) by {
        if k >= before.len() {
            assert(out[k] == added[k - before.len()]);
        } else {
            assert(out[k] == before[k]);
        }
    }
}

/// Findings about the first-party code of the project.
///
/// `sources` holds the text of the project's files, by path relative to the root; a file
/// absent from it reads as empty. Every finding concerns a node of the project or of its
/// workspace with a known path; a long-function finding is reported exactly for the
/// functions, methods and constructors of at least 120 lines outside test files.
pub fn detect_findings(project_id: &str, graph: &ProjectGraph, sources: &Vec<SourceText>) -> (res: Vec<Finding>)
    ensures
        forall|k: int| 0 <= k < res@.len() ==> in_scope(*graph, #[trigger] res@[k]),
        forall|i: int| 0 <= i < graph.nodes@.len() && long_function_applies(#[trigger] graph.nodes@[i]) ==> exists|k: int|
            0 <= k < res@.len() && res@[k].detector@ == Detector::LongFunction.spec_name()
            && res@[k].node_ids@ == seq![graph.nodes@[i].id],
        forall|k: int| 0 <= k < res@.len() && (#[trigger] res@[k]).detector@ == Detector::LongFunction.spec_name()
            ==> exists|i: int| 0 <= i < graph.nodes@.len() && long_function_applies(graph.nodes@[i])
            && res@[k].node_ids@ == seq![graph.nodes@[i].id] && res@[k].severity == long_function_severity(graph.nodes@[i]),
        forall|k: int| 0 <= k < res@.len() ==> reported_on(*graph, #[trigger] res@[k], project_id@),
        long_finding_nodes(res@) == long_function_nodes(graph.nodes@, graph.nodes@.len() as int),
{
    let mut out: Vec<Finding> = Vec::new();
    let mut cycles: Vec<(String, String)> = Vec::new();
    let mut i: usize = 0;
    proof {
        lemma_detection_start(*graph, out@);
        assert(long_finding_nodes(out@) =~= long_function_nodes(graph.nodes@, 0));
    }
    while i < graph.nodes.len()
        invariant
            i <= graph.nodes@.len(),
            all_in_scope(*graph, out@),
            long_functions_reported(*graph, out@, i as int),
            long_function_reports_sound(*graph, out@),
            forall|k: int| 0 <= k < out@.len() ==> reported_on(*graph, #[trigger] out@[k], project_id@),
            long_finding_nodes(out@) == long_function_nodes(graph.nodes@, i as int),
        decreases graph.nodes.len() - i,
    {
        let node = &graph.nodes[i];
        if node.source_scope.library_eligible() && node.path.is_some() {
            let ghost before = out@;
            let mut found = node_findings(project_id, graph, i, sources, &mut cycles);
            let ghost added = found@;
            out.append(&mut found);
            proof {
                assert(out@ =~= before + added);
                lemma_extend_scope(*graph, before, added, i as int);
                lemma_extend_reported(*graph, before, added, i as int);
                lemma_extend_sound(*graph, before, added, i as int);
                assert forall|k: int| 0 <= k < out@.len() implies reported_on(*graph, #[trigger] out@[k], project_id@) by {
                    if k < before.len() {
                        assert(out@[k] == before[k]);
                    } else {
                        assert(out@[k] == added[k - before.len()]);
                        assert(issued_for(added[k - before.len()], project_id@, graph.nodes@[i as int].id@));
                    }
                }
                lemma_long_finding_nodes_append(before, added);
                assert(long_function_nodes(graph.nodes@, i + 1) == long_function_nodes(graph.nodes@, i as int) + if long_function_applies(
                    graph.nodes@[i as int],
                ) {
                    seq![seq![graph.nodes@[i as int].id]]
                } else {
                    seq![]
                });
            }
        } else {
            proof {
                lemma_skip_node(*graph, out@, i as int);
                assert(long_function_nodes(graph.nodes@, i + 1) =~= long_function_nodes(graph.nodes@, i as int));
            }
        }
        i = i + 1;
    }
    proof {
        lemma_detection_done(*graph, out@);
    }
    out
}

} // verus!
