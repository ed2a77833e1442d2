//! Deterministic quality, architecture, performance and security findings.
use vstd::prelude::*;

use crate::hashing::{spec_stable_hash, stable_hash};
use crate::model::{CodeEdge, CodeNode, NodeKind, ProjectGraph, RelationKind, copy_opt_string, str_equal};
use crate::patterns::matches_pattern;
use crate::text::{
    append_chars, chars_of, contains, count_occurrences, decimal, find_char, join_chars, matches_at,
    occurs_at, replace_char, seq_contains, seq_starts_with, slice_chars, spec_replace_char,
    spec_to_lowercase, split_lines, starts_with, string_of, to_lowercase, trim,
};

verus! {

#[derive(Clone, Copy, Debug, PartialEq, Eq, Structural)]
pub enum FindingCategory {
    Quality,
    Architecture,
    Performance,
    Security,
}

#[derive(Clone, Copy, Debug, PartialEq, Eq, Structural)]
pub enum FindingSeverity {
    Info,
    Low,
    Medium,
    High,
    Critical,
}

#[derive(Clone, Copy, Debug, PartialEq, Eq, Structural)]
pub enum FindingStatus {
    Open,
    Accepted,
    Ignored,
    Fixed,
    FalsePositive,
}

/// A located excerpt of source code supporting a finding.
#[derive(Clone, Debug)]
pub struct SourceSpan {
    pub path: String,
    pub start_line: usize,
    pub start_column: usize,
    pub end_line: usize,
    pub end_column: usize,
    pub snippet: Option<String>,
    pub label: Option<String>,
    pub role: Option<String>,
}

/// A detected issue. Confidence is expressed in thousandths.
#[derive(Clone, Debug)]
pub struct Finding {
    pub id: String,
    pub fingerprint: String,
    pub project_id: String,
    pub category: FindingCategory,
    pub severity: FindingSeverity,
    pub title: String,
    pub description: String,
    pub evidence: Vec<String>,
    pub node_ids: Vec<String>,
    pub edge_ids: Vec<String>,
    pub path: Option<String>,
    pub start_line: Option<usize>,
    pub end_line: Option<usize>,
    pub primary_span: Option<SourceSpan>,
    pub evidence_spans: Vec<SourceSpan>,
    pub detector: String,
    pub confidence_permille: u32,
    pub status: FindingStatus,
    pub source_hash: String,
    pub ai_analysis: Option<String>,
    pub created_at: i64,
    pub updated_at: i64,
}

/// A structured security review produced by a provider.
#[derive(Clone, Debug)]
pub struct AiSecurityReview {
    pub executive_summary: String,
    pub prioritized_risks: Vec<String>,
    pub attack_paths: Vec<String>,
    pub recommended_actions: Vec<String>,
    pub limitations: Vec<String>,
}

/// The source text of one project file, as read from disk.
#[derive(Clone, Debug)]
pub struct SourceText {
    pub path: String,
    pub text: String,
}

/// Calls `std::time::SystemTime::now` and returns the seconds since the Unix epoch; the
/// clock is read, so nothing is stated of the value.
#[verifier::external_body]
pub(crate) fn unix_now() -> i64 {
    std::time::SystemTime::now().duration_since(std::time::UNIX_EPOCH).map(|d| d.as_secs() as i64).unwrap_or(0)
}

/// What a detector hands to `finding`.
pub struct FindingInput {
    pub project_id: String,
    pub category: FindingCategory,
    pub severity: FindingSeverity,
    pub title: String,
    pub description: String,
    pub evidence: Vec<String>,
    pub node_ids: Vec<String>,
    pub edge_ids: Vec<String>,
    pub path: Option<String>,
    pub start_line: Option<usize>,
    pub end_line: Option<usize>,
    pub detector: String,
    pub confidence_permille: u32,
    pub source_hash: String,
}

pub open spec fn opt_view(o: Option<String>) -> Seq<char> {
    match o {
        Some(s) => s@,
        None => Seq::empty(),
    }
}

pub open spec fn first_or_empty(v: Seq<String>) -> Seq<char> {
    if v.len() > 0 {
        v[0]@
    } else {
        Seq::empty()
    }
}

/// The fingerprint of a finding: detector, path, first node and source hash.
pub open spec fn spec_fingerprint(input: FindingInput) -> Seq<char> {
    spec_stable_hash(
        seq![input.detector@, opt_view(input.path), first_or_empty(input.node_ids@), input.source_hash@],
    )
}

/// Builds a finding: its fingerprint, id and primary span derive from the input.
pub fn finding(input: FindingInput) -> (res: Finding)
    ensures
        res.fingerprint@ == spec_fingerprint(input),
        res.id@ == "finding:"@ + spec_fingerprint(input).subrange(0, 24),
        res.project_id == input.project_id,
        res.category == input.category,
        res.severity == input.severity,
        res.title == input.title,
        res.description == input.description,
        res.evidence == input.evidence,
        res.node_ids == input.node_ids,
        res.edge_ids == input.edge_ids,
        res.path == input.path,
        res.start_line == input.start_line,
        res.end_line == input.end_line,
        res.detector == input.detector,
        res.confidence_permille == input.confidence_permille,
        res.status == FindingStatus::Open,
        res.source_hash == input.source_hash,
        res.ai_analysis is None,
        res.created_at == res.updated_at,
        match input.path {
            Some(p) => res.primary_span is Some && {
                let span = res.primary_span->0;
                &&& span.path == p
                &&& span.start_line == (match input.start_line { Some(l) => l, None => 1 })
                &&& span.end_line == (match input.end_line {
                    Some(l) => l,
                    None => match input.start_line { Some(l) => l, None => 1 },
                })
                &&& span.start_column == 1
                &&& span.end_column == 1
                &&& span.role is Some
                &&& span.role->0@ == "primary"@
                &&& res.evidence_spans@ == seq![span]
            },
            None => res.primary_span is None && res.evidence_spans@.len() == 0,
        },
{
    let mut parts: Vec<String> = Vec::new();
    parts.push(input.detector.clone());
    parts.push(match &input.path {
        Some(p) => p.clone(),
        None => String::new(),
    });
    parts.push(if input.node_ids.len() > 0 {
        input.node_ids[0].clone()
    } else {
        String::new()
    });
    parts.push(input.source_hash.clone());
    let fingerprint = stable_hash(&parts);
    proof {
        assert(parts@.map_values(|p: String| p@) =~= seq![
            input.detector@,
            opt_view(input.path),
            first_or_empty(input.node_ids@),
            input.source_hash@,
        ]);
    }
    let fchars = chars_of(fingerprint.as_str());
    let prefix = slice_chars(&fchars, 0, 24);
    let mut id = String::from_str("finding:");
    let pstr = string_of(&prefix);
    id.append(pstr.as_str());
    let now = unix_now();
    let primary_span = match &input.path {
        Some(p) => Some(SourceSpan {
            path: p.clone(),
            start_line: match input.start_line {
                Some(l) => l,
                None => 1,
            },
            start_column: 1,
            end_line: match input.end_line {
                Some(l) => l,
                None => match input.start_line {
                    Some(l) => l,
                    None => 1,
                },
            },
            end_column: 1,
            snippet: None,
            label: Some(input.title.clone()),
            role: Some(String::from_str("primary")),
        }),
        None => None,
    };
    let mut evidence_spans: Vec<SourceSpan> = Vec::new();
    match &primary_span {
        Some(span) => {
            evidence_spans.push(clone_span(span));
        },
        None => {},
    }
    Finding {
        id,
        fingerprint,
        project_id: input.project_id,
        category: input.category,
        severity: input.severity,
        title: input.title,
        description: input.description,
        evidence: input.evidence,
        node_ids: input.node_ids,
        edge_ids: input.edge_ids,
        path: input.path,
        start_line: input.start_line,
        end_line: input.end_line,
        primary_span,
        evidence_spans,
        detector: input.detector,
        confidence_permille: input.confidence_permille,
        status: FindingStatus::Open,
        source_hash: input.source_hash,
        ai_analysis: None,
        created_at: now,
        updated_at: now,
    }
}

/// A field-by-field copy of a span.
pub fn clone_span(span: &SourceSpan) -> (res: SourceSpan)
    ensures
        res == *span,
{
    SourceSpan {
        path: span.path.clone(),
        start_line: span.start_line,
        start_column: span.start_column,
        end_line: span.end_line,
        end_column: span.end_column,
        snippet: copy_opt_string(&span.snippet),
        label: copy_opt_string(&span.label),
        role: copy_opt_string(&span.role),
    }
}

fn copy_spans(v: &Vec<SourceSpan>) -> (res: Vec<SourceSpan>)
    ensures
        res@ == v@,
{
    let mut out: Vec<SourceSpan> = Vec::new();
    let mut k: usize = 0;
    while k < v.len()
        invariant
            k <= v@.len(),
            out@ == v@.subrange(0, k as int),
        decreases v.len() - k,
    {
        out.push(clone_span(&v[k]));
        assert(out@ =~= v@.subrange(0, k + 1));
        k = k + 1;
    }
    assert(v@.subrange(0, v@.len() as int) =~= v@);
    out
}

impl Finding {
    /// Two findings hold the same values, lists compared by their contents.
    pub open spec fn same_as(self, other: Finding) -> bool {
        &&& self.id == other.id
        &&& self.fingerprint == other.fingerprint
        &&& self.project_id == other.project_id
        &&& self.category == other.category
        &&& self.severity == other.severity
        &&& self.title == other.title
        &&& self.description == other.description
        &&& self.evidence@ == other.evidence@
        &&& self.node_ids@ == other.node_ids@
        &&& self.edge_ids@ == other.edge_ids@
        &&& self.path == other.path
        &&& self.start_line == other.start_line
        &&& self.end_line == other.end_line
        &&& self.primary_span == other.primary_span
        &&& self.evidence_spans@ == other.evidence_spans@
        &&& self.detector == other.detector
        &&& self.confidence_permille == other.confidence_permille
        &&& self.status == other.status
        &&& self.source_hash == other.source_hash
        &&& self.ai_analysis == other.ai_analysis
        &&& self.created_at == other.created_at
        &&& self.updated_at == other.updated_at
    }

    /// A field-by-field copy of the finding.
    pub fn duplicate(&self) -> (res: Finding)
        ensures
            res.same_as(*self),
    {
        Finding {
            id: self.id.clone(),
            fingerprint: self.fingerprint.clone(),
            project_id: self.project_id.clone(),
            category: self.category,
            severity: self.severity,
            title: self.title.clone(),
            description: self.description.clone(),
            evidence: crate::text::copy_strings(&self.evidence),
            node_ids: crate::text::copy_strings(&self.node_ids),
            edge_ids: crate::text::copy_strings(&self.edge_ids),
            path: copy_opt_string(&self.path),
            start_line: self.start_line,
            end_line: self.end_line,
            primary_span: match &self.primary_span {
                Some(span) => Some(clone_span(span)),
                None => None,
            },
            evidence_spans: copy_spans(&self.evidence_spans),
            detector: self.detector.clone(),
            confidence_permille: self.confidence_permille,
            status: self.status,
            source_hash: self.source_hash.clone(),
            ai_analysis: copy_opt_string(&self.ai_analysis),
            created_at: self.created_at,
            updated_at: self.updated_at,
        }
    }
}

// ---------------------------------------------------------------------------
// Patterns outside string literals
// ---------------------------------------------------------------------------

pub open spec fn is_quote(c: char) -> bool {
    c == '"' || c == '\'' || c == '`'
}

/// Literal-tracking state after one more character: the open quote, and whether the next
/// character is escaped.
pub open spec fn literal_step(state: (Option<char>, bool), c: char) -> (Option<char>, bool) {
    let (quote, escaped) = state;
    if escaped {
        (quote, false)
    } else if c == '\\' && quote is Some {
        (quote, true)
    } else if is_quote(c) {
        if quote == Some(c) {
            (None, false)
        } else if quote is None {
            (Some(c), false)
        } else {
            (quote, false)
        }
    } else {
        (quote, false)
    }
}

/// Literal-tracking state before position `k` of `line`.
pub open spec fn literal_state(line: Seq<char>, k: int) -> (Option<char>, bool)
    decreases k,
{
    if k <= 0 {
        (None, false)
    } else {
        literal_step(literal_state(line, k - 1), line[k - 1])
    }
}

/// `pattern` starts at position `i` of `line`, outside any string literal.
pub open spec fn code_match_at(line: Seq<char>, pattern: Seq<char>, i: int) -> bool {
    let (quote, escaped) = literal_state(line, i);
    &&& 0 <= i < line.len()
    &&& !escaped
    &&& quote is None
    &&& !is_quote(line[i])
    &&& occurs_at(line, pattern, i)
}

/// One-based column of the first occurrence of `pattern` outside string literals.
///
/// Security signatures appearing only in documentation, examples or detector catalogues are
/// evidence about text, not about executable behavior.
pub fn pattern_column_outside_literal(line: &[char], pattern: &[char]) -> (res: Option<usize>)
    ensures
        match res {
            Some(col) => col >= 1 && code_match_at(line@, pattern@, col - 1)
                && forall|j: int| 0 <= j < col - 1 ==> !code_match_at(line@, pattern@, j),
            None => forall|j: int| !code_match_at(line@, pattern@, j),
        },
{
    let mut quote: Option<char> = None;
    let mut escaped = false;
    let mut index: usize = 0;
    while index < line.len()
        invariant
            index <= line@.len(),
            (quote, escaped) == literal_state(line@, index as int),
            forall|j: int| 0 <= j < index ==> !code_match_at(line@, pattern@, j),
        decreases line.len() - index,
    {
        let c = line[index];
        if escaped {
            escaped = false;
        } else if c == '\\' && quote.is_some() {
            escaped = true;
        } else if c == '"' || c == '\'' || c == '`' {
            if quote == Some(c) {
                quote = None;
            } else if quote.is_none() {
                quote = Some(c);
            }
        } else if quote.is_none() && matches_at(line, pattern, index) {
            return Some(index + 1);
        }
        index = index + 1;
    }
    None
}

/// Whether `pattern` occurs in `line` outside string literals.
pub fn pattern_outside_literal(line: &str, pattern: &str) -> (res: bool)
    ensures
        res == exists|j: int| code_match_at(line@, pattern@, j),
{
    let l = chars_of(line);
    let p = chars_of(pattern);
    match pattern_column_outside_literal(&l, &p) {
        Some(col) => true,
        None => false,
    }
}

// ---------------------------------------------------------------------------
// Call depth
// ---------------------------------------------------------------------------

/// `ids` is a chain of resolved calls: each id calls the next.
pub open spec fn is_call_chain(g: ProjectGraph, ids: Seq<Seq<char>>) -> bool {
    forall|k: int| 0 <= k < ids.len() - 1 ==> #[trigger] calls_link(g, ids[k], ids[k + 1])
}

/// Some resolved call edge leads from `a` to `b`.
pub open spec fn calls_link(g: ProjectGraph, a: Seq<char>, b: Seq<char>) -> bool {
    exists|e: int| 0 <= e < g.edges@.len() && (#[trigger] g.edges@[e]).relation == RelationKind::Calls
        && g.edges@[e].source_id@ == a && g.edges@[e].target_id@ == b
}

pub open spec fn count_unused(used: Seq<bool>) -> int
    decreases used.len(),
{
    if used.len() == 0 {
        0
    } else {
        count_unused(used.drop_last()) + if used.last() { 0int } else { 1int }
    }
}

proof fn lemma_count_unused_use(used: Seq<bool>, i: int)
    requires
        0 <= i < used.len(),
        !used[i],
    ensures
        count_unused(used.update(i, true)) == count_unused(used) - 1,
        count_unused(used) >= 1,
    decreases used.len(),
{
    let u = used.update(i, true);
    if i == used.len() - 1 {
        assert(u.drop_last() =~= used.drop_last());
        lemma_count_unused_nonneg(used.drop_last());
    } else {
        assert(u.drop_last() =~= used.drop_last().update(i, true));
        lemma_count_unused_use(used.drop_last(), i);
    }
}

proof fn lemma_count_unused_nonneg(used: Seq<bool>)
    ensures
        count_unused(used) >= 0,
    decreases used.len(),
{
    if used.len() > 0 {
        lemma_count_unused_nonneg(used.drop_last());
    }
}

fn contains_string(v: &Vec<String>, s: &str) -> (res: bool)
    ensures
        res == exists|k: int| 0 <= k < v@.len() && v@[k]@ == s@,
{
    let mut i: usize = 0;
    while i < v.len()
        invariant
            i <= v@.len(),
            forall|k: int| 0 <= k < i ==> v@[k]@ != s@,
        decreases v.len() - i,
    {
        if str_equal(v[i].as_str(), s) {
            return true;
        }
        i = i + 1;
    }
    false
}

/// Depth of the deepest resolved call chain reached from `start`, breadth first, up to
/// `maximum`.
pub fn resolved_call_depth(graph: &ProjectGraph, start: &str, maximum: usize) -> (res: usize)
    ensures
        res <= maximum,
        exists|ids: Seq<Seq<char>>| ids.len() == res + 1 && ids[0] == start@ && is_call_chain(*graph, ids),
{
    let mut deepest: usize = 0;
    let ghost mut deepest_chain: Seq<Seq<char>> = seq![start@];
    let mut visited: Vec<String> = Vec::new();
    visited.push(String::from_str(start));
    let mut queue: Vec<(String, usize)> = Vec::new();
    let ghost mut chains: Seq<Seq<Seq<char>>> = Seq::empty();
    queue.push((String::from_str(start), 0));
    proof {
        chains = chains.push(seq![start@]);
    }
    let mut head: usize = 0;
    let ghost mut used: Seq<bool> = Seq::new(graph.edges@.len(), |i: int| false);
    proof {
        lemma_count_unused_nonneg(used);
    }
    while head < queue.len()
        invariant
            head <= queue@.len(),
            chains.len() == queue@.len(),
            used.len() == graph.edges@.len(),
            deepest <= maximum,
            deepest_chain.len() == deepest + 1,
            deepest_chain[0] == start@,
            is_call_chain(*graph, deepest_chain),
            forall|k: int| 0 <= k < queue@.len() ==> (#[trigger] chains[k]).len() == queue@[k].1 + 1
                && chains[k][0] == start@ && chains[k][chains[k].len() - 1] == queue@[k].0@
                && is_call_chain(*graph, chains[k]) && queue@[k].1 <= maximum,
            forall|e: int| 0 <= e < used.len() && #[trigger] used[e] ==> exists|k: int|
                0 <= k < visited@.len() && visited@[k]@ == graph.edges@[e].target_id@,
            count_unused(used) >= 0,
        decreases 2 * count_unused(used) + queue@.len() - head,
    {
        let current = queue[head].0.clone();
        let depth = queue[head].1;
        let ghost chain = chains[head as int];
        head = head + 1;
        if depth >= maximum {
            continue;
        }
        let edges = graph.outgoing_edges(current.as_str());
        let ghost measure = 2 * count_unused(used) + queue@.len() - head;
        let mut k: usize = 0;
        while k < edges.len()
            invariant
                head <= queue@.len(),
                chains.len() == queue@.len(),
                used.len() == graph.edges@.len(),
                deepest <= maximum,
                deepest_chain.len() == deepest + 1,
                deepest_chain[0] == start@,
                is_call_chain(*graph, deepest_chain),
                forall|j: int| 0 <= j < queue@.len() ==> (#[trigger] chains[j]).len() == queue@[j].1 + 1
                    && chains[j][0] == start@ && chains[j][chains[j].len() - 1] == queue@[j].0@
                    && is_call_chain(*graph, chains[j]) && queue@[j].1 <= maximum,
                forall|e: int| 0 <= e < used.len() && #[trigger] used[e] ==> exists|j: int|
                    0 <= j < visited@.len() && visited@[j]@ == graph.edges@[e].target_id@,
                count_unused(used) >= 0,
                2 * count_unused(used) + queue@.len() - head <= measure,
                depth < maximum,
                chain.len() == depth + 1,
                chain[0] == start@,
                chain[chain.len() - 1] == current@,
                is_call_chain(*graph, chain),
                forall|j: int| 0 <= j < edges@.len() ==> (edges@[j] as int) < graph.edges@.len()
                    && graph.edges@[edges@[j] as int].source_id@ == current@,
                k <= edges@.len(),
            decreases edges.len() - k,
        {
            let e = edges[k];
            if graph.edges[e].relation == RelationKind::Calls {
                let target = graph.edges[e].target_id.as_str();
                if !contains_string(&visited, target) {
                    let next_depth = depth + 1;
                    let ghost next_chain = chain.push(target@);
                    proof {
                        assert forall|j: int| 0 <= j < next_chain.len() - 1 implies #[trigger] calls_link(
                            *graph, next_chain[j], next_chain[j + 1]) by {
                            if j < chain.len() - 1 {
                                assert(next_chain[j] == chain[j] && next_chain[j + 1] == chain[j + 1]);
                                assert(calls_link(*graph, chain[j], chain[j + 1]));
                            } else {
                                assert(graph.edges@[e as int].relation == RelationKind::Calls);
                            }
                        }
                        assert(!used[e as int]);
                        lemma_count_unused_use(used, e as int);
                    }
                    let ghost old_used = used;
                    let ghost old_visited = visited@;
                    visited.push(String::from_str(target));
                    if next_depth > deepest {
                        deepest = next_depth;
                        proof {
                            deepest_chain = next_chain;
                        }
                    }
                    queue.push((String::from_str(target), next_depth));
                    proof {
                        chains = chains.push(next_chain);
                        used = used.update(e as int, true);
                        assert forall|e2: int| 0 <= e2 < used.len() && #[trigger] used[e2] implies exists|j: int|
                            0 <= j < visited@.len() && visited@[j]@ == graph.edges@[e2].target_id@ by {
                            if e2 == e as int {
                                assert(visited@[visited@.len() - 1]@ == target@);
                            } else {
                                assert(old_used[e2]);
                                let j = choose|j: int| 0 <= j < old_visited.len() && old_visited[j]@
                                    == graph.edges@[e2].target_id@;
                                assert(visited@[j] == old_visited[j]);
                            }
                        }
                        assert forall|j: int| 0 <= j < queue@.len() implies (#[trigger] chains[j]).len()
                            == queue@[j].1 + 1 && chains[j][0] == start@ && chains[j][chains[j].len() - 1]
                            == queue@[j].0@ && is_call_chain(*graph, chains[j]) && queue@[j].1 <= maximum by {
                        }
                    }
                }
            }
            k = k + 1;
        }
    }
    deepest
}


// ---------------------------------------------------------------------------
// Counts by severity
// ---------------------------------------------------------------------------

/// The severities in the order of their names.
pub open spec fn severities_by_name() -> Seq<FindingSeverity> {
    seq![FindingSeverity::Critical, FindingSeverity::High, FindingSeverity::Info, FindingSeverity::Low, FindingSeverity::Medium]
}

/// A severity's name.
pub open spec fn severity_name(s: FindingSeverity) -> Seq<char> {
    match s {
        FindingSeverity::Info => "info"@,
        FindingSeverity::Low => "low"@,
        FindingSeverity::Medium => "medium"@,
        FindingSeverity::High => "high"@,
        FindingSeverity::Critical => "critical"@,
    }
}

/// The number of findings of a severity.
pub open spec fn severity_count(fs: Seq<Finding>, s: FindingSeverity) -> nat
    decreases fs.len(),
{
    if fs.len() == 0 {
        0
    } else {
        severity_count(fs.drop_last(), s) + if fs.last().severity == s { 1nat } else { 0nat }
    }
}

/// The severities among `ss` that occur in `fs`, in order.
pub open spec fn occurring_among(fs: Seq<Finding>, ss: Seq<FindingSeverity>) -> Seq<FindingSeverity>
    decreases ss.len(),
{
    if ss.len() == 0 {
        ss
    } else {
        let r = occurring_among(fs, ss.drop_last());
        if severity_count(fs, ss.last()) > 0 { r.push(ss.last()) } else { r }
    }
}

/// The severities that occur, in the order of their names.
pub open spec fn occurring_severities(fs: Seq<Finding>) -> Seq<FindingSeverity> {
    occurring_among(fs, severities_by_name())
}

/// `d` counts the findings by severity: one member per severity that occurs, named after
/// it, in the order of the names, holding the count in decimal.
pub open spec fn summary_counts(d: crate::json::JsonDoc, fs: Seq<Finding>) -> bool {
    match d {
        crate::json::JsonDoc::Object(ms) => {
            let occurring = occurring_severities(fs);
            &&& ms@.len() == occurring.len()
            &&& forall|k: int| 0 <= k < ms@.len() ==> (#[trigger] ms@[k]).0@ == severity_name(occurring[k])
                && match ms@[k].1 {
                    crate::json::JsonDoc::Number(n) => n@ == crate::text::spec_decimal(severity_count(fs, occurring[k])),
                    _ => false,
                }
        },
        _ => false,
    }
}

fn count_severity(findings: &Vec<Finding>, s: FindingSeverity) -> (res: usize)
    ensures
        res == severity_count(findings@, s),
{
    let mut n: usize = 0;
    let mut k: usize = 0;
    while k < findings.len()
        invariant
            k <= findings@.len(),
            n == severity_count(findings@.subrange(0, k as int), s),
            n <= k,
        decreases findings.len() - k,
    {
        assert(findings@.subrange(0, k + 1).drop_last() =~= findings@.subrange(0, k as int));
        if findings[k].severity == s {
            n = n + 1;
        }
        k = k + 1;
    }
    assert(findings@.subrange(0, findings@.len() as int) =~= findings@);
    n
}

fn severity_text(s: FindingSeverity) -> (res: String)
    ensures
        res@ == severity_name(s),
{
    match s {
        FindingSeverity::Info => String::from_str("info"),
        FindingSeverity::Low => String::from_str("low"),
        FindingSeverity::Medium => String::from_str("medium"),
        FindingSeverity::High => String::from_str("high"),
        FindingSeverity::Critical => String::from_str("critical"),
    }
}

/// The number of findings of each severity that occurs, by severity name in name order.
pub fn finding_summary(findings: &Vec<Finding>) -> (res: crate::json::JsonDoc)
    ensures
        summary_counts(res, findings@),
{
    let order = vec![FindingSeverity::Critical, FindingSeverity::High, FindingSeverity::Info, FindingSeverity::Low, FindingSeverity::Medium];
    assert(order@ =~= severities_by_name());
    let mut members: Vec<(String, crate::json::JsonDoc)> = Vec::new();
    let mut k: usize = 0;
    while k < order.len()
        invariant
            k <= order@.len(),
            order@ == severities_by_name(),
            members@.len() == occurring_among(findings@, severities_by_name().subrange(0, k as int)).len(),
            forall|q: int| 0 <= q < members@.len() ==> (#[trigger] members@[q]).0@ == severity_name(
                occurring_among(findings@, severities_by_name().subrange(0, k as int))[q])
                && match members@[q].1 {
                    crate::json::JsonDoc::Number(n) => n@ == crate::text::spec_decimal(severity_count(findings@,
                        occurring_among(findings@, severities_by_name().subrange(0, k as int))[q])),
                    _ => false,
                },
        decreases order.len() - k,
    {
        let ghost pre = severities_by_name().subrange(0, k as int);
        let ghost next = severities_by_name().subrange(0, k + 1);
        assert(next.drop_last() =~= pre);
        assert(next.last() == order@[k as int]);
        let n = count_severity(findings, order[k]);
        if n > 0 {
            members.push((severity_text(order[k]), crate::json::JsonDoc::Number(crate::text::string_of(&crate::text::decimal(n)))));
        }
        k = k + 1;
    }
    assert(severities_by_name().subrange(0, 5) =~= severities_by_name());
    crate::json::JsonDoc::Object(members)
}

} // verus!
