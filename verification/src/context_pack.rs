//! Context packs: the first-party evidence handed to a model for a task, within a token budget.
use vstd::prelude::*;

use crate::context::{
    ContextEntity, ContextIntent, ContextSnippet, TokenBudgetManager, redact_sensitive_line, redaction_marker,
    sensitive_path, spec_redacted, spec_sensitive_path,
};
use crate::features::Feature;
use crate::findings::{Finding, SourceText};
use crate::model::{CodeEdge, CodeNode, ProjectGraph, copy_opt_string, str_equal};
use crate::text::{
    any_word_in, append_chars, holds, chars_of, contains, decimal, insert_sorted_unique, is_word_at, join_chars,
    seq_contains, seq_less, some_word_in, spec_decimal, spec_join, spec_lines, spec_to_lowercase, split_lines,
    strictly_sorted, string_of, to_lowercase, views,
};

verus! {

/// A reusable piece of the code library, as context matching sees it.
#[derive(Clone, Debug)]
pub struct LibraryEntry {
    pub id: String,
    pub display_name: String,
    pub description: String,
    pub tags: Vec<String>,
}

impl LibraryEntry {
    /// Two entries hold the same values.
    pub open spec fn same_as(self, other: LibraryEntry) -> bool {
        &&& self.id == other.id
        &&& self.display_name == other.display_name
        &&& self.description == other.description
        &&& self.tags@ == other.tags@
    }

    /// A field-by-field copy of the entry.
    pub fn duplicate(&self) -> (res: LibraryEntry)
        ensures
            res.same_as(*self),
    {
        LibraryEntry {
            id: self.id.clone(),
            display_name: self.display_name.clone(),
            description: self.description.clone(),
            tags: crate::text::copy_strings(&self.tags),
        }
    }
}

/// What a context pack is built from.
pub struct ContextPackRequest<'a> {
    pub project_id: &'a str,
    pub graph: &'a ProjectGraph,
    pub intent: ContextIntent,
    pub task: &'a str,
    pub explicit_ids: &'a Vec<String>,
    pub requested_tokens: Option<usize>,
    pub library: &'a Vec<LibraryEntry>,
    pub features: &'a Vec<Feature>,
    pub findings: &'a Vec<Finding>,
}

/// The evidence assembled for a task.
pub struct ContextPack {
    pub intent: ContextIntent,
    pub project_id: String,
    pub project_summary: String,
    pub selected_entities: Vec<ContextEntity>,
    pub graph_evidence: Vec<String>,
    pub source_snippets: Vec<ContextSnippet>,
    pub tests: Vec<String>,
    pub findings: Vec<Finding>,
    pub library_matches: Vec<LibraryEntry>,
    pub feature_matches: Vec<Feature>,
    pub token_estimate: usize,
    pub max_tokens: usize,
    pub truncated: bool,
    pub provenance: Vec<String>,
}

// ---------------------------------------------------------------------------
// Which nodes are considered
// ---------------------------------------------------------------------------

/// The first `n` elements of `s`, or all of them when there are fewer.
pub open spec fn first_n<T>(s: Seq<T>, n: int) -> Seq<T> {
    if s.len() <= n { s } else { s.subrange(0, n) }
}

/// Each value once, in the order of its first occurrence.
pub open spec fn first_occurrences(s: Seq<Seq<char>>) -> Seq<Seq<char>>
    decreases s.len(),
{
    if s.len() == 0 {
        s
    } else {
        let d = first_occurrences(s.drop_last());
        if d.contains(s.last()) { d } else { d.push(s.last()) }
    }
}

/// The ids a pack considers: the explicit ids, then the first 16 ranked ids, each once, at
/// most 30 of them.
pub open spec fn considered_ids(explicit: Seq<Seq<char>>, ranked: Seq<Seq<char>>) -> Seq<Seq<char>> {
    first_n(first_occurrences(explicit + first_n(ranked, 16)), 30)
}

pub(crate) fn absorb(out: &mut Vec<String>, s: &String, Ghost(prefix): Ghost<Seq<Seq<char>>>)
    requires
        views(old(out)@) == first_occurrences(prefix),
    ensures
        views(final(out)@) == first_occurrences(prefix.push(s@)),
{
    assert(prefix.push(s@).drop_last() =~= prefix);
    if !holds(out, s.as_str()) {
        out.push(s.clone());
        assert(views(out@) =~= first_occurrences(prefix).push(s@));
    }
}

fn considered(explicit: &Vec<String>, ranked: &Vec<String>) -> (res: Vec<String>)
    ensures
        views(res@) == considered_ids(views(explicit@), views(ranked@)),
{
    let ghost e = views(explicit@);
    let ghost q = views(ranked@);
    let mut out: Vec<String> = Vec::new();
    let mut k: usize = 0;
    while k < explicit.len()
        invariant
            k <= explicit@.len(),
            e == views(explicit@),
            views(out@) == first_occurrences(e.subrange(0, k as int)),
        decreases explicit.len() - k,
    {
        absorb(&mut out, &explicit[k], Ghost(e.subrange(0, k as int)));
        assert(e.subrange(0, k as int).push(explicit@[k as int]@) =~= e.subrange(0, k + 1));
        k = k + 1;
    }
    assert(e.subrange(0, e.len() as int) =~= e);
    let r = if ranked.len() <= 16 { ranked.len() } else { 16 };
    let mut j: usize = 0;
    while j < r
        invariant
            j <= r <= ranked@.len(),
            r == first_n(q, 16).len(),
            e == views(explicit@),
            q == views(ranked@),
            views(out@) == first_occurrences(e + q.subrange(0, j as int)),
        decreases r - j,
    {
        absorb(&mut out, &ranked[j], Ghost(e + q.subrange(0, j as int)));
        assert((e + q.subrange(0, j as int)).push(ranked@[j as int]@) =~= e + q.subrange(0, j + 1));
        j = j + 1;
    }
    assert(q.subrange(0, r as int) =~= first_n(q, 16));
    if out.len() > 30 {
        out.truncate(30);
        assert(views(out@) =~= first_occurrences(e + first_n(q, 16)).subrange(0, 30));
    }
    out
}

// ---------------------------------------------------------------------------
// Graph evidence
// ---------------------------------------------------------------------------

/// The evidence line of an edge: `source --Relation--> target`.
pub open spec fn evidence_line(e: CodeEdge) -> Seq<char> {
    e.source_id@ + " --"@ + e.relation.spec_name() + "--> "@ + e.target_id@
}

/// Evidence lines of the edges entering `id`, in graph order.
pub open spec fn incoming_lines(edges: Seq<CodeEdge>, id: Seq<char>) -> Seq<Seq<char>>
    decreases edges.len(),
{
    if edges.len() == 0 {
        Seq::empty()
    } else {
        let r = incoming_lines(edges.drop_last(), id);
        if edges.last().target_id@ == id { r.push(evidence_line(edges.last())) } else { r }
    }
}

/// Evidence lines of the edges leaving `id`, in graph order.
pub open spec fn outgoing_lines(edges: Seq<CodeEdge>, id: Seq<char>) -> Seq<Seq<char>>
    decreases edges.len(),
{
    if edges.len() == 0 {
        Seq::empty()
    } else {
        let r = outgoing_lines(edges.drop_last(), id);
        if edges.last().source_id@ == id { r.push(evidence_line(edges.last())) } else { r }
    }
}

/// The evidence a selected node contributes: its first 20 edges, entering ones first.
pub open spec fn node_evidence(g: ProjectGraph, id: Seq<char>) -> Seq<Seq<char>> {
    first_n(incoming_lines(g.edges@, id) + outgoing_lines(g.edges@, id), 20)
}

fn edge_line(e: &CodeEdge) -> (res: String)
    ensures
        res@ == evidence_line(*e),
{
    let mut out: Vec<char> = chars_of(e.source_id.as_str());
    append_chars(&mut out, &chars_of(" --"));
    append_chars(&mut out, &chars_of(e.relation.as_str()));
    append_chars(&mut out, &chars_of("--> "));
    append_chars(&mut out, &chars_of(e.target_id.as_str()));
    string_of(&out)
}

fn node_evidence_exec(g: &ProjectGraph, id: &str) -> (res: Vec<String>)
    ensures
        views(res@) == node_evidence(*g, id@),
{
    let mut incoming: Vec<String> = Vec::new();
    let mut outgoing: Vec<String> = Vec::new();
    let mut i: usize = 0;
    while i < g.edges.len()
        invariant
            i <= g.edges@.len(),
            views(incoming@) == incoming_lines(g.edges@.subrange(0, i as int), id@),
            views(outgoing@) == outgoing_lines(g.edges@.subrange(0, i as int), id@),
        decreases g.edges.len() - i,
    {
        let ghost pre = g.edges@.subrange(0, i + 1);
        proof {
            assert(pre.drop_last() =~= g.edges@.subrange(0, i as int));
            assert(pre.last() == g.edges@[i as int]);
        }
        let e = &g.edges[i];
        if str_equal(e.target_id.as_str(), id) {
            incoming.push(edge_line(e));
        }
        if str_equal(e.source_id.as_str(), id) {
            outgoing.push(edge_line(e));
        }
        proof {
            assert(views(incoming@) =~= incoming_lines(pre, id@));
            assert(views(outgoing@) =~= outgoing_lines(pre, id@));
        }
        i = i + 1;
    }
    assert(g.edges@.subrange(0, g.edges@.len() as int) =~= g.edges@);
    let ghost all = views(incoming@) + views(outgoing@);
    let mut out: Vec<String> = Vec::new();
    let mut k: usize = 0;
    while k < incoming.len() && k < 20
        invariant
            k <= incoming@.len(),
            k <= 20,
            all == views(incoming@) + views(outgoing@),
            views(out@) == all.subrange(0, k as int),
        decreases incoming.len() - k,
    {
        let ghost before = views(out@);
        out.push(incoming[k].clone());
        assert(all[k as int] == views(incoming@)[k as int]);
        assert(views(out@) == before.push(incoming@[k as int]@));
        assert(views(out@) =~= all.subrange(0, k + 1));
        k = k + 1;
    }
    if k == incoming.len() {
        let mut j: usize = 0;
        while j < outgoing.len() && j < 20 - k
            invariant
                k == incoming@.len(),
                k <= 20,
                j <= outgoing@.len(),
                k + j <= 20,
                all == views(incoming@) + views(outgoing@),
                views(out@) == all.subrange(0, k + j),
            decreases outgoing.len() - j,
        {
            let ghost before = views(out@);
            out.push(outgoing[j].clone());
            assert(all[k + j] == views(outgoing@)[j as int]);
            assert(views(out@) == before.push(outgoing@[j as int]@));
            assert(views(out@) =~= all.subrange(0, k + j + 1));
            j = j + 1;
        }
        assert(all.len() == k + outgoing@.len());
        proof {
            if all.len() <= 20 {
                assert(all.subrange(0, all.len() as int) =~= all);
            }
        }
        assert(views(out@) =~= first_n(all, 20));
    } else {
        assert(views(out@) =~= first_n(all, 20));
    }
    out
}

// ---------------------------------------------------------------------------
// Source excerpts
// ---------------------------------------------------------------------------

/// `i` is the first position of a source text for `path`.
pub open spec fn first_source_at(sources: Seq<SourceText>, path: Seq<char>, i: int) -> bool {
    &&& 0 <= i < sources.len()
    &&& sources[i].path@ == path
    &&& forall|j: int| 0 <= j < i ==> sources[j].path@ != path
}

/// The text read for `path`: that of the first source carrying the path, if any.
pub open spec fn source_of(sources: Seq<SourceText>, path: Seq<char>) -> Option<Seq<char>> {
    if exists|i: int| first_source_at(sources, path, i) {
        Some(sources[choose|i: int| first_source_at(sources, path, i)].text@)
    } else {
        None
    }
}

pub(crate) fn find_source<'a>(sources: &'a Vec<SourceText>, path: &str) -> (res: Option<&'a String>)
    ensures
        match res {
            Some(t) => source_of(sources@, path@) == Some(t@),
            None => source_of(sources@, path@) is None,
        },
{
    let mut i: usize = 0;
    while i < sources.len()
        invariant
            i <= sources@.len(),
            forall|j: int| 0 <= j < i ==> sources@[j].path@ != path@,
        decreases sources.len() - i,
    {
        if str_equal(sources[i].path.as_str(), path) {
            proof {
                assert(first_source_at(sources@, path@, i as int));
                let c = choose|c: int| first_source_at(sources@, path@, c);
                if c < i {
                    assert(sources@[c].path@ != path@);
                }
                if i < c {
                    assert(sources@[i as int].path@ != path@);
                }
            }
            return Some(&sources[i].text);
        }
        i = i + 1;
    }
    None
}

/// The first and last line of a node's excerpt: from its start line (1 by default) to its
/// end line, at most 120 lines further.
pub open spec fn snippet_bounds(n: CodeNode) -> (int, int) {
    let start: int = match n.start_line {
        Some(s) => s as int,
        None => 1,
    };
    let end: int = match n.end_line {
        Some(e) => e as int,
        None => start,
    };
    let cap: int = if start + 120 > usize::MAX { usize::MAX as int } else { start + 120 };
    (start, if end <= cap { end } else { cap })
}

/// A line as it may be shown: itself, or the redaction marker when it assigns a secret.
pub open spec fn shown_line(line: Seq<char>) -> Seq<char> {
    if spec_redacted(line) { redaction_marker() } else { line }
}

/// Lines `from..to` of `lines`, each as it may be shown.
pub open spec fn shown_lines(lines: Seq<Seq<char>>, from: int, to: int) -> Seq<Seq<char>>
    decreases to - from,
{
    if to <= from {
        Seq::empty()
    } else {
        shown_lines(lines, from, to - 1).push(shown_line(lines[to - 1]))
    }
}

/// The excerpt of `text` from line `start` to line `end` (one-based), secrets redacted,
/// lines joined with `\n`.
pub open spec fn snippet_text(text: Seq<char>, start: int, end: int) -> Seq<char> {
    let lines = spec_lines(text);
    let skip: int = if start >= 1 { start - 1 } else { 0 };
    let count: int = (if end >= start { end - start } else { 0 }) + 1;
    let from: int = if skip <= lines.len() { skip } else { lines.len() as int };
    let to: int = if from + count <= lines.len() { from + count } else { lines.len() as int };
    spec_join(shown_lines(lines, from, to), "\n"@)
}

/// The token estimate of a text: a quarter of its characters, rounded up.
pub open spec fn token_estimate(text: Seq<char>) -> int {
    ((text.len() + 3) / 4) as int
}

fn excerpt(text: &str, start: usize, end: usize) -> (res: String)
    ensures
        res@ == snippet_text(text@, start as int, end as int),
{
    let chars = chars_of(text);
    let lines = split_lines(&chars);
    let ghost ls = spec_lines(text@);
    let n = lines.len();
    let skip: usize = if start >= 1 { start - 1 } else { 0 };
    let count: usize = (if end >= start { end - start } else { 0 });
    let from: usize = if skip <= n { skip } else { n };
    let to: usize = if count < n - from { from + count + 1 } else { n };
    proof {
        assert(from as int + count as int + 1 <= n ==> to == from + count + 1);
    }
    let mut shown: Vec<Vec<char>> = Vec::new();
    let mut i: usize = from;
    while i < to
        invariant
            from <= i <= to <= n,
            n == lines@.len(),
            ls == spec_lines(text@),
            chars@ == text@,
            ls.len() == n,
            forall|k: int| 0 <= k < n ==> (#[trigger] lines@[k])@ == ls[k],
            shown@.len() == i - from,
            forall|k: int| 0 <= k < shown@.len() ==> (#[trigger] shown@[k])@ == shown_lines(ls, from as int, i as int)[k],
            shown_lines(ls, from as int, i as int).len() == i - from,
        decreases to - i,
    {
        let line = redact_sensitive_line(string_of(&lines[i]).as_str());
        let ghost before = shown_lines(ls, from as int, i as int);
        shown.push(chars_of(line.as_str()));
        proof {
            assert(shown_lines(ls, from as int, i + 1) == before.push(shown_line(ls[i as int])));
        }
        i = i + 1;
    }
    let joined = join_chars(&shown, shown.len(), &chars_of("\n"));
    proof {
        assert(shown@.subrange(0, shown@.len() as int).map_values(|p: Vec<char>| p@) =~= shown_lines(ls, from as int, to as int));
    }
    string_of(&joined)
}

// ---------------------------------------------------------------------------
// The walk over the considered nodes
// ---------------------------------------------------------------------------

/// The excerpt a node contributes, if any: none without a path, for a sensitive path, or
/// when no text was read for the path.
pub open spec fn excerpt_of(sources: Seq<SourceText>, n: CodeNode) -> Option<Seq<char>> {
    match n.path {
        None => None,
        Some(p) => if spec_sensitive_path(p@) {
            None
        } else {
            match source_of(sources, p@) {
                None => None,
                Some(t) => Some(snippet_text(t, snippet_bounds(n).0, snippet_bounds(n).1)),
            }
        },
    }
}

/// What the walk has gathered: the selected nodes, the excerpts kept (with their node), the
/// evidence lines, the tokens spent, and whether the budget stopped it.
pub type PackState = (Seq<CodeNode>, Seq<(CodeNode, Seq<char>)>, Seq<Seq<char>>, int, bool);

/// One step of the walk: a known first-party node is selected and its edges recorded; its
/// excerpt is kept when it fits in the budget, and otherwise the walk stops.
pub open spec fn pack_step(g: ProjectGraph, sources: Seq<SourceText>, budget: int, st: PackState, id: Seq<char>) -> PackState {
    if st.4 || !g.has_node(id) {
        st
    } else {
        let n = g.nodes@[g.node_index(id)];
        if !n.source_scope.spec_library_eligible() {
            st
        } else {
            let sel = st.0.push(n);
            let ev = st.2 + node_evidence(g, n.id@);
            match excerpt_of(sources, n) {
                None => (sel, st.1, ev, st.3, false),
                Some(b) => if st.3 + token_estimate(b) > budget {
                    (sel, st.1, ev, st.3, true)
                } else {
                    (sel, st.1.push((n, b)), ev, st.3 + token_estimate(b), false)
                },
            }
        }
    }
}

/// The walk over a list of ids.
pub open spec fn pack_walk(g: ProjectGraph, sources: Seq<SourceText>, budget: int, ids: Seq<Seq<char>>) -> PackState
    decreases ids.len(),
{
    if ids.len() == 0 {
        (Seq::empty(), Seq::empty(), Seq::empty(), 0, false)
    } else {
        pack_step(g, sources, budget, pack_walk(g, sources, budget, ids.drop_last()), ids.last())
    }
}

proof fn lemma_walk_stays_stopped(g: ProjectGraph, sources: Seq<SourceText>, budget: int, ids: Seq<Seq<char>>, k: int)
    requires
        0 <= k <= ids.len(),
        pack_walk(g, sources, budget, ids.subrange(0, k)).4,
    ensures
        pack_walk(g, sources, budget, ids) == pack_walk(g, sources, budget, ids.subrange(0, k)),
    decreases ids.len() - k,
{
    if k < ids.len() {
        assert(ids.subrange(0, k + 1).drop_last() =~= ids.subrange(0, k));
        lemma_walk_stays_stopped(g, sources, budget, ids, k + 1);
    } else {
        assert(ids.subrange(0, k) =~= ids);
    }
}

/// The reason recorded for a selected node.
pub open spec fn selection_reason(explicit: Seq<Seq<char>>, id: Seq<char>) -> Seq<char> {
    if explicit.contains(id) { "explicit selection"@ } else { "ranked task relevance"@ }
}

/// An entity records its node: id, name, kind, path and why it was selected.
pub open spec fn entity_records(e: ContextEntity, n: CodeNode, explicit: Seq<Seq<char>>) -> bool {
    &&& e.id == n.id
    &&& e.name == n.name
    &&& e.kind@ == n.kind.spec_name()
    &&& e.path == n.path
    &&& e.reason@ == selection_reason(explicit, n.id@)
}

/// A snippet records a node's excerpt: the node, its path, the line range and the text.
pub open spec fn snippet_records(s: ContextSnippet, n: CodeNode, body: Seq<char>) -> bool {
    &&& s.node_id == n.id
    &&& n.path == Some(s.path)
    &&& s.start_line == snippet_bounds(n).0
    &&& s.end_line == snippet_bounds(n).1
    &&& s.source@ == body
}

proof fn lemma_first_n_push<T>(s: Seq<T>, x: T, n: int)
    requires
        n >= 0,
    ensures
        s.len() >= n ==> first_n(s.push(x), n) == first_n(s, n),
        s.len() < n ==> first_n(s.push(x), n) == s.push(x),
{
    if s.len() >= n {
        assert(first_n(s.push(x), n) =~= first_n(s, n));
    }
}

fn entity_for(n: &CodeNode, explicit: &Vec<String>) -> (res: ContextEntity)
    ensures
        entity_records(res, *n, views(explicit@)),
{
    let reason = if holds(explicit, n.id.as_str()) { "explicit selection" } else { "ranked task relevance" };
    ContextEntity {
        id: n.id.clone(),
        name: n.name.clone(),
        kind: String::from_str(n.kind.as_str()),
        path: copy_opt_string(&n.path),
        reason: String::from_str(reason),
    }
}

fn bounds(n: &CodeNode) -> (res: (usize, usize))
    ensures
        res.0 == snippet_bounds(*n).0,
        res.1 == snippet_bounds(*n).1,
{
    let start = match n.start_line {
        Some(s) => s,
        None => 1,
    };
    let end = match n.end_line {
        Some(e) => e,
        None => start,
    };
    let cap = crate::text::sat_add(start, 120);
    (start, if end <= cap { end } else { cap })
}

fn absorb_evidence(evidence: &mut Vec<String>, lines: &Vec<String>, Ghost(ev): Ghost<Seq<Seq<char>>>)
    requires
        strictly_sorted(views(old(evidence)@)),
        forall|x: Seq<char>| #[trigger] views(old(evidence)@).contains(x) <==> ev.contains(x),
    ensures
        strictly_sorted(views(final(evidence)@)),
        forall|x: Seq<char>| #[trigger] views(final(evidence)@).contains(x) <==> (ev + views(lines@)).contains(x),
{
    let ghost ls = views(lines@);
    let mut j: usize = 0;
    while j < lines.len()
        invariant
            j <= lines@.len(),
            ls == views(lines@),
            strictly_sorted(views(evidence@)),
            forall|x: Seq<char>| #[trigger] views(evidence@).contains(x) <==> (ev + ls.subrange(0, j as int)).contains(x),
        decreases lines.len() - j,
    {
        let ghost before = ev + ls.subrange(0, j as int);
        insert_sorted_unique(evidence, lines[j].clone());
        proof {
            assert(ev + ls.subrange(0, j + 1) =~= before.push(ls[j as int]));
            crate::text::lemma_contains_push(before, ls[j as int]);
        }
        j = j + 1;
    }
    assert(ls.subrange(0, ls.len() as int) =~= ls);
}

/// The result of the walk over the considered ids.
pub open spec fn walk_of(g: ProjectGraph, explicit: Seq<Seq<char>>, ranked: Seq<Seq<char>>, sources: Seq<SourceText>, budget: int) -> PackState {
    pack_walk(g, sources, budget, considered_ids(explicit, ranked))
}

proof fn lemma_walk_tokens(g: ProjectGraph, sources: Seq<SourceText>, budget: int, ids: Seq<Seq<char>>)
    requires
        budget >= 0,
    ensures
        0 <= pack_walk(g, sources, budget, ids).3 <= budget,
        pack_walk(g, sources, budget, ids).0.len() <= ids.len(),
    decreases ids.len(),
{
    if ids.len() > 0 {
        lemma_walk_tokens(g, sources, budget, ids.drop_last());
    }
}

fn walk(
    g: &ProjectGraph,
    explicit: &Vec<String>,
    ids: &Vec<String>,
    sources: &Vec<SourceText>,
    budget: usize,
) -> (res: (Vec<ContextEntity>, Vec<ContextSnippet>, Vec<String>, usize, bool))
    ensures
        ({
            let st = pack_walk(*g, sources@, budget as int, views(ids@));
            &&& res.0@.len() == st.0.len()
            &&& forall|k: int| 0 <= k < st.0.len() ==> entity_records(#[trigger] res.0@[k], st.0[k], views(explicit@))
            &&& res.1@.len() == st.1.len()
            &&& forall|k: int| 0 <= k < st.1.len() ==> snippet_records(#[trigger] res.1@[k], st.1[k].0, st.1[k].1)
            &&& strictly_sorted(views(res.2@))
            &&& forall|x: Seq<char>| #[trigger] views(res.2@).contains(x) <==> st.2.contains(x)
            &&& res.3 == st.3
            &&& res.4 == st.4
        }),
{
    let ghost is = views(ids@);
    let mut selected: Vec<ContextEntity> = Vec::new();
    let mut snippets: Vec<ContextSnippet> = Vec::new();
    let mut evidence: Vec<String> = Vec::new();
    let mut tokens: usize = 0;
    let mut truncated = false;
    let mut k: usize = 0;
    proof {
        assert(is.subrange(0, 0) =~= Seq::<Seq<char>>::empty());
    }
    while k < ids.len() && !truncated
        invariant
            k <= ids@.len(),
            is == views(ids@),
            tokens <= budget,
            ({
                let st = pack_walk(*g, sources@, budget as int, is.subrange(0, k as int));
                &&& selected@.len() == st.0.len()
                &&& forall|i: int| 0 <= i < st.0.len() ==> entity_records(#[trigger] selected@[i], st.0[i], views(explicit@))
                &&& snippets@.len() == st.1.len()
                &&& forall|i: int| 0 <= i < st.1.len() ==> snippet_records(#[trigger] snippets@[i], st.1[i].0, st.1[i].1)
                &&& strictly_sorted(views(evidence@))
                &&& forall|x: Seq<char>| #[trigger] views(evidence@).contains(x) <==> st.2.contains(x)
                &&& tokens == st.3
                &&& truncated == st.4
            }),
        decreases ids.len() - k,
    {
        let ghost st = pack_walk(*g, sources@, budget as int, is.subrange(0, k as int));
        proof {
            assert(is.subrange(0, k + 1).drop_last() =~= is.subrange(0, k as int));
            assert(is.subrange(0, k + 1).last() == ids@[k as int]@);
        }
        let id = ids[k].as_str();
        match g.find_node_index(id) {
            None => {},
            Some(i) => {
                let n = &g.nodes[i];
                if n.source_scope.library_eligible() {
                    selected.push(entity_for(n, explicit));
                    let lines = node_evidence_exec(g, n.id.as_str());
                    absorb_evidence(&mut evidence, &lines, Ghost(st.2));
                    match &n.path {
                        None => {},
                        Some(p) => {
                            if !sensitive_path(p.as_str()) {
                                match find_source(sources, p.as_str()) {
                                    None => {},
                                    Some(text) => {
                                        let (start, end) = bounds(n);
                                        let body = excerpt(text.as_str(), start, end);
                                        let estimate = TokenBudgetManager::estimate(body.as_str());
                                        if estimate > budget - tokens {
                                            truncated = true;
                                        } else {
                                            tokens = tokens + estimate;
                                            snippets.push(ContextSnippet {
                                                node_id: n.id.clone(),
                                                path: p.clone(),
                                                start_line: start,
                                                end_line: end,
                                                source: body,
                                            });
                                        }
                                    },
                                }
                            }
                        },
                    }
                }
            },
        }
        proof {
            let st2 = pack_walk(*g, sources@, budget as int, is.subrange(0, k + 1));
            assert(st2 == pack_step(*g, sources@, budget as int, st, ids@[k as int]@));
        }
        k = k + 1;
    }
    proof {
        if k < ids@.len() {
            lemma_walk_stays_stopped(*g, sources@, budget as int, is, k as int);
        } else {
            assert(is.subrange(0, k as int) =~= is);
        }
    }
    (selected, snippets, evidence, tokens, truncated)
}

// ---------------------------------------------------------------------------
// Matches in the library, the features, the findings and the tests
// ---------------------------------------------------------------------------

/// The text of a library entry that a task is matched against.
pub open spec fn library_text(e: LibraryEntry) -> Seq<char> {
    e.display_name@ + " "@ + e.description@ + " "@ + spec_join(views(e.tags@), " "@)
}

/// A library entry matches when one of the words of its lowercase text occurs in the task.
pub open spec fn library_hit(e: LibraryEntry, needle: Seq<char>) -> bool {
    some_word_in(spec_to_lowercase(library_text(e)), needle)
}

/// The matching library entries, in order.
pub open spec fn library_hits(es: Seq<LibraryEntry>, needle: Seq<char>) -> Seq<LibraryEntry>
    decreases es.len(),
{
    if es.len() == 0 {
        Seq::empty()
    } else {
        let r = library_hits(es.drop_last(), needle);
        if library_hit(es.last(), needle) { r.push(es.last()) } else { r }
    }
}

/// A feature matches when the task contains its lowercase name or one of the name's words.
pub open spec fn feature_hit(f: Feature, needle: Seq<char>) -> bool {
    seq_contains(needle, spec_to_lowercase(f.name@)) || some_word_in(spec_to_lowercase(f.name@), needle)
}

/// The matching features, in order.
pub open spec fn feature_hits(fs: Seq<Feature>, needle: Seq<char>) -> Seq<Feature>
    decreases fs.len(),
{
    if fs.len() == 0 {
        Seq::empty()
    } else {
        let r = feature_hits(fs.drop_last(), needle);
        if feature_hit(fs.last(), needle) { r.push(fs.last()) } else { r }
    }
}

/// Among the first ten features, each whose lowercase name has a whitespace-separated word
/// that occurs in the lowercase task is among the matches.
pub open spec fn word_matches_kept(fs: Seq<Feature>, lower_task: Seq<char>, matches: Seq<Feature>) -> bool {
    forall|k: int, i: int, j: int| 0 <= k < fs.len() && k < 10 && #[trigger] is_word_at(spec_to_lowercase(fs[k].name@), i, j)
        && seq_contains(lower_task, spec_to_lowercase(fs[k].name@).subrange(i, j))
        ==> exists|m: int| 0 <= m < matches.len() && (#[trigger] matches[m]).same_as(fs[k])
}

proof fn lemma_feature_hits_len(fs: Seq<Feature>, needle: Seq<char>)
    ensures
        feature_hits(fs, needle).len() <= fs.len(),
    decreases fs.len(),
{
    if fs.len() > 0 {
        lemma_feature_hits_len(fs.drop_last(), needle);
    }
}

/// A matching feature at position `k` stands among the matches at a position no later than `k`.
proof fn lemma_hit_listed(fs: Seq<Feature>, needle: Seq<char>, k: int)
    requires
        0 <= k < fs.len(),
        feature_hit(fs[k], needle),
    ensures
        exists|p: int| 0 <= p <= k && p < feature_hits(fs, needle).len() && feature_hits(fs, needle)[p] == fs[k],
    decreases fs.len(),
{
    let r = feature_hits(fs.drop_last(), needle);
    if k == fs.len() - 1 {
        lemma_feature_hits_len(fs.drop_last(), needle);
        assert(feature_hits(fs, needle)[r.len() as int] == fs[k]);
    } else {
        assert(fs.drop_last()[k] == fs[k]);
        lemma_hit_listed(fs.drop_last(), needle, k);
        let p = choose|p: int| 0 <= p <= k && p < r.len() && r[p] == fs[k];
        assert(feature_hits(fs, needle)[p] == fs[k]);
    }
}

/// A finding is relevant when it concerns a selected node.
pub open spec fn finding_hit(f: Finding, selected: Seq<CodeNode>) -> bool {
    exists|i: int, j: int| 0 <= i < f.node_ids@.len() && 0 <= j < selected.len()
        && #[trigger] f.node_ids@[i]@ == #[trigger] selected[j].id@
}

/// The relevant findings, in order.
pub open spec fn finding_hits(fs: Seq<Finding>, selected: Seq<CodeNode>) -> Seq<Finding>
    decreases fs.len(),
{
    if fs.len() == 0 {
        Seq::empty()
    } else {
        let r = finding_hits(fs.drop_last(), selected);
        if finding_hit(fs.last(), selected) { r.push(fs.last()) } else { r }
    }
}

/// A path names test code.
pub open spec fn test_like(path: Seq<char>) -> bool {
    seq_contains(spec_to_lowercase(path), "test"@) || seq_contains(spec_to_lowercase(path), "spec"@)
}

/// The paths of the selected nodes that name test code, in order.
pub open spec fn test_paths(selected: Seq<CodeNode>) -> Seq<Seq<char>>
    decreases selected.len(),
{
    if selected.len() == 0 {
        Seq::empty()
    } else {
        let r = test_paths(selected.drop_last());
        match selected.last().path {
            Some(p) => if test_like(p@) { r.push(p@) } else { r },
            None => r,
        }
    }
}

fn library_matches(library: &Vec<LibraryEntry>, needle: &Vec<char>) -> (res: Vec<LibraryEntry>)
    ensures
        res@.len() == first_n(library_hits(library@, needle@), 10).len(),
        forall|k: int| 0 <= k < res@.len() ==> (#[trigger] res@[k]).same_as(first_n(library_hits(library@, needle@), 10)[k]),
{
    let mut out: Vec<LibraryEntry> = Vec::new();
    let mut i: usize = 0;
    while i < library.len()
        invariant
            i <= library@.len(),
            out@.len() == first_n(library_hits(library@.subrange(0, i as int), needle@), 10).len(),
            forall|k: int| 0 <= k < out@.len() ==> (#[trigger] out@[k]).same_as(
                first_n(library_hits(library@.subrange(0, i as int), needle@), 10)[k]),
        decreases library.len() - i,
    {
        let ghost pre = library@.subrange(0, i + 1);
        let ghost hits = library_hits(library@.subrange(0, i as int), needle@);
        proof {
            assert(pre.drop_last() =~= library@.subrange(0, i as int));
            assert(pre.last() == library@[i as int]);
            lemma_first_n_push(hits, library@[i as int], 10);
        }
        let e = &library[i];
        let mut pieces: Vec<Vec<char>> = Vec::new();
        let mut t: usize = 0;
        while t < e.tags.len()
            invariant
                t <= e.tags@.len(),
                pieces@.len() == t,
                forall|q: int| 0 <= q < t ==> (#[trigger] pieces@[q])@ == e.tags@[q]@,
            decreases e.tags.len() - t,
        {
            pieces.push(chars_of(e.tags[t].as_str()));
            t = t + 1;
        }
        let joined = join_chars(&pieces, pieces.len(), &chars_of(" "));
        proof {
            assert(pieces@.subrange(0, pieces@.len() as int).map_values(|p: Vec<char>| p@) =~= views(e.tags@));
        }
        let mut text: Vec<char> = chars_of(e.display_name.as_str());
        append_chars(&mut text, &chars_of(" "));
        append_chars(&mut text, &chars_of(e.description.as_str()));
        append_chars(&mut text, &chars_of(" "));
        append_chars(&mut text, &joined);
        let lower = to_lowercase(string_of(&text).as_str());
        if any_word_in(&chars_of(lower.as_str()), needle) && out.len() < 10 {
            out.push(e.duplicate());
        }
        i = i + 1;
    }
    assert(library@.subrange(0, library@.len() as int) =~= library@);
    out
}

fn feature_matches(features: &Vec<Feature>, needle: &Vec<char>) -> (res: Vec<Feature>)
    ensures
        res@.len() == first_n(feature_hits(features@, needle@), 10).len(),
        forall|k: int| 0 <= k < res@.len() ==> (#[trigger] res@[k]).same_as(first_n(feature_hits(features@, needle@), 10)[k]),
        word_matches_kept(features@, needle@, res@),
{
    let mut out: Vec<Feature> = Vec::new();
    let mut i: usize = 0;
    while i < features.len()
        invariant
            i <= features@.len(),
            out@.len() == first_n(feature_hits(features@.subrange(0, i as int), needle@), 10).len(),
            forall|k: int| 0 <= k < out@.len() ==> (#[trigger] out@[k]).same_as(
                first_n(feature_hits(features@.subrange(0, i as int), needle@), 10)[k]),
        decreases features.len() - i,
    {
        let ghost pre = features@.subrange(0, i + 1);
        let ghost hits = feature_hits(features@.subrange(0, i as int), needle@);
        proof {
            assert(pre.drop_last() =~= features@.subrange(0, i as int));
            assert(pre.last() == features@[i as int]);
            lemma_first_n_push(hits, features@[i as int], 10);
        }
        let f = &features[i];
        let name = to_lowercase(f.name.as_str());
        let name_chars = chars_of(name.as_str());
        if (contains(needle, &name_chars) || any_word_in(&name_chars, needle)) && out.len() < 10 {
            out.push(f.duplicate());
        }
        i = i + 1;
    }
    assert(features@.subrange(0, features@.len() as int) =~= features@);
    proof {
        assert forall|k: int, i: int, j: int| 0 <= k < features@.len() && k < 10 && #[trigger] is_word_at(
            spec_to_lowercase(features@[k].name@),
            i,
            j,
        ) && seq_contains(needle@, spec_to_lowercase(features@[k].name@).subrange(i, j))
            implies exists|m: int| 0 <= m < out@.len() && (#[trigger] out@[m]).same_as(features@[k]) by {
            assert(some_word_in(spec_to_lowercase(features@[k].name@), needle@));
            lemma_hit_listed(features@, needle@, k);
            let hits = feature_hits(features@, needle@);
            let p = choose|p: int| 0 <= p <= k && p < hits.len() && hits[p] == features@[k];
            assert(first_n(hits, 10)[p] == hits[p]);
            assert(out@[p].same_as(features@[k]));
        }
    }
    out
}

fn touches(f: &Finding, selected: &Vec<ContextEntity>, Ghost(nodes): Ghost<Seq<CodeNode>>, Ghost(explicit): Ghost<Seq<Seq<char>>>) -> (res: bool)
    requires
        selected@.len() == nodes.len(),
        forall|k: int| 0 <= k < nodes.len() ==> entity_records(#[trigger] selected@[k], nodes[k], explicit),
    ensures
        res == finding_hit(*f, nodes),
{
    let mut i: usize = 0;
    while i < f.node_ids.len()
        invariant
            i <= f.node_ids@.len(),
            selected@.len() == nodes.len(),
            forall|k: int| 0 <= k < nodes.len() ==> entity_records(#[trigger] selected@[k], nodes[k], explicit),
            forall|a: int, b: int| 0 <= a < i && 0 <= b < nodes.len() ==> #[trigger] f.node_ids@[a]@ != #[trigger] nodes[b].id@,
        decreases f.node_ids.len() - i,
    {
        let mut j: usize = 0;
        while j < selected.len()
            invariant
                i < f.node_ids@.len(),
                j <= selected@.len(),
                selected@.len() == nodes.len(),
                forall|k: int| 0 <= k < nodes.len() ==> entity_records(#[trigger] selected@[k], nodes[k], explicit),
                forall|b: int| 0 <= b < j ==> f.node_ids@[i as int]@ != #[trigger] nodes[b].id@,
            decreases selected.len() - j,
        {
            assert(entity_records(selected@[j as int], nodes[j as int], explicit));
            if str_equal(f.node_ids[i].as_str(), selected[j].id.as_str()) {
                assert(f.node_ids@[i as int]@ == nodes[j as int].id@);
                return true;
            }
            j = j + 1;
        }
        i = i + 1;
    }
    false
}

fn finding_matches(
    findings: &Vec<Finding>,
    selected: &Vec<ContextEntity>,
    Ghost(nodes): Ghost<Seq<CodeNode>>,
    Ghost(explicit): Ghost<Seq<Seq<char>>>,
) -> (res: Vec<Finding>)
    requires
        selected@.len() == nodes.len(),
        forall|k: int| 0 <= k < nodes.len() ==> entity_records(#[trigger] selected@[k], nodes[k], explicit),
    ensures
        res@.len() == first_n(finding_hits(findings@, nodes), 50).len(),
        forall|k: int| 0 <= k < res@.len() ==> (#[trigger] res@[k]).same_as(first_n(finding_hits(findings@, nodes), 50)[k]),
{
    let mut out: Vec<Finding> = Vec::new();
    let mut i: usize = 0;
    while i < findings.len()
        invariant
            i <= findings@.len(),
            selected@.len() == nodes.len(),
            forall|k: int| 0 <= k < nodes.len() ==> entity_records(#[trigger] selected@[k], nodes[k], explicit),
            out@.len() == first_n(finding_hits(findings@.subrange(0, i as int), nodes), 50).len(),
            forall|k: int| 0 <= k < out@.len() ==> (#[trigger] out@[k]).same_as(
                first_n(finding_hits(findings@.subrange(0, i as int), nodes), 50)[k]),
        decreases findings.len() - i,
    {
        let ghost pre = findings@.subrange(0, i + 1);
        let ghost hits = finding_hits(findings@.subrange(0, i as int), nodes);
        proof {
            assert(pre.drop_last() =~= findings@.subrange(0, i as int));
            assert(pre.last() == findings@[i as int]);
            lemma_first_n_push(hits, findings@[i as int], 50);
        }
        if touches(&findings[i], selected, Ghost(nodes), Ghost(explicit)) && out.len() < 50 {
            out.push(findings[i].duplicate());
        }
        i = i + 1;
    }
    assert(findings@.subrange(0, findings@.len() as int) =~= findings@);
    out
}

fn test_paths_of(selected: &Vec<ContextEntity>, Ghost(nodes): Ghost<Seq<CodeNode>>, Ghost(explicit): Ghost<Seq<Seq<char>>>) -> (res: Vec<String>)
    requires
        selected@.len() == nodes.len(),
        forall|k: int| 0 <= k < nodes.len() ==> entity_records(#[trigger] selected@[k], nodes[k], explicit),
    ensures
        views(res@) == test_paths(nodes),
{
    let mut out: Vec<String> = Vec::new();
    let mut i: usize = 0;
    while i < selected.len()
        invariant
            i <= selected@.len(),
            selected@.len() == nodes.len(),
            forall|k: int| 0 <= k < nodes.len() ==> entity_records(#[trigger] selected@[k], nodes[k], explicit),
            views(out@) == test_paths(nodes.subrange(0, i as int)),
        decreases selected.len() - i,
    {
        proof {
            assert(nodes.subrange(0, i + 1).drop_last() =~= nodes.subrange(0, i as int));
            assert(entity_records(selected@[i as int], nodes[i as int], explicit));
        }
        match &selected[i].path {
            Some(p) => {
                let lower = to_lowercase(p.as_str());
                let l = chars_of(lower.as_str());
                if contains(&l, &chars_of("test")) || contains(&l, &chars_of("spec")) {
                    out.push(p.clone());
                    assert(views(out@) =~= test_paths(nodes.subrange(0, i as int)).push(p@));
                }
            },
            None => {},
        }
        i = i + 1;
    }
    assert(nodes.subrange(0, nodes.len() as int) =~= nodes);
    out
}

// ---------------------------------------------------------------------------
// The pack
// ---------------------------------------------------------------------------

/// The budget of a pack: the default manager's cap for the requested tokens.
pub open spec fn pack_budget(requested: Option<usize>) -> int {
    TokenBudgetManager { configured_max: 200_000, reserve: 20_000 }.spec_context_cap(requested)
}

/// The summary line of a graph: its node, edge and unresolved-call counts.
pub open spec fn pack_summary(g: ProjectGraph) -> Seq<char> {
    spec_decimal(g.nodes@.len()) + " nodes, "@ + spec_decimal(g.edges@.len()) + " edges, "@
        + spec_decimal(g.unresolved_calls@.len()) + " unresolved calls"@
}

/// Where a pack's content comes from.
pub open spec fn pack_provenance() -> Seq<Seq<char>> {
    seq![
        "persisted ProjectGraph"@,
        "first-party source excerpts"@,
        "deterministic search and neighborhood selection"@,
    ]
}

/// `kept` is the sorted, deduplicated `lines`, cut after its first 200 values.
pub open spec fn evidence_digest(kept: Seq<Seq<char>>, lines: Seq<Seq<char>>) -> bool {
    &&& strictly_sorted(kept)
    &&& kept.len() <= 200
    &&& forall|x: Seq<char>| #[trigger] kept.contains(x) ==> lines.contains(x)
    &&& forall|x: Seq<char>| #[trigger] lines.contains(x) && !kept.contains(x) ==> kept.len() == 200
        && seq_less(kept.last(), x)
}

fn summary_of(g: &ProjectGraph) -> (res: String)
    ensures
        res@ == pack_summary(*g),
{
    let mut out = decimal(g.nodes.len());
    append_chars(&mut out, &chars_of(" nodes, "));
    append_chars(&mut out, &decimal(g.edges.len()));
    append_chars(&mut out, &chars_of(" edges, "));
    append_chars(&mut out, &decimal(g.unresolved_calls.len()));
    append_chars(&mut out, &chars_of(" unresolved calls"));
    string_of(&out)
}

fn cut_evidence(evidence: &mut Vec<String>, Ghost(lines): Ghost<Seq<Seq<char>>>)
    requires
        strictly_sorted(views(old(evidence)@)),
        forall|x: Seq<char>| #[trigger] views(old(evidence)@).contains(x) <==> lines.contains(x),
    ensures
        evidence_digest(views(final(evidence)@), lines),
{
    let ghost full = views(evidence@);
    if evidence.len() > 200 {
        evidence.truncate(200);
        let ghost kept = views(evidence@);
        assert(kept =~= full.subrange(0, 200));
        assert forall|x: Seq<char>| #[trigger] kept.contains(x) implies lines.contains(x) by {
            let i = choose|i: int| 0 <= i < kept.len() && kept[i] == x;
            assert(full[i] == x);
            assert(full.contains(x));
        }
        assert forall|x: Seq<char>| #[trigger] lines.contains(x) && !kept.contains(x) implies kept.len() == 200
            && seq_less(kept.last(), x) by {
            assert(full.contains(x));
            let i = choose|i: int| 0 <= i < full.len() && full[i] == x;
            if i < 200 {
                assert(kept[i] == x);
            }
            assert(kept.last() == full[199]);
        }
    } else {
        assert forall|x: Seq<char>| #[trigger] lines.contains(x) && !views(evidence@).contains(x) implies false by {}
    }
}

/// Assembles the evidence for a task within the token budget.
///
/// `ranked` lists, best first, the nodes the project search ranks for the task; `sources`
/// holds the text of the project files that could be read inside the project root, by
/// relative path. The considered nodes are the explicit ones, then the first 16 ranked
/// ones, each once, at most 30. Each known first-party node among them is selected and its
/// first 20 edges recorded; its excerpt (up to 121 lines, secrets redacted) is kept while
/// the budget allows, and the first excerpt that does not fit ends the selection.
pub fn build_context_pack(request: ContextPackRequest, ranked: &Vec<String>, sources: &Vec<SourceText>) -> (res: ContextPack)
    ensures
        res.intent == request.intent,
        res.project_id@ == request.project_id@,
        res.project_summary@ == pack_summary(*request.graph),
        views(res.provenance@) == pack_provenance(),
        res.max_tokens == pack_budget(request.requested_tokens),
        res.token_estimate <= res.max_tokens,
        res.selected_entities@.len() <= 30,
        res.graph_evidence@.len() <= 200,
        ({
            let st = walk_of(*request.graph, views(request.explicit_ids@), views(ranked@), sources@, res.max_tokens as int);
            let needle = spec_to_lowercase(request.task@);
            &&& res.selected_entities@.len() == st.0.len()
            &&& forall|k: int| 0 <= k < st.0.len() ==> entity_records(#[trigger] res.selected_entities@[k], st.0[k], views(request.explicit_ids@))
            &&& res.source_snippets@.len() == st.1.len()
            &&& forall|k: int| 0 <= k < st.1.len() ==> snippet_records(#[trigger] res.source_snippets@[k], st.1[k].0, st.1[k].1)
            &&& res.token_estimate == st.3
            &&& res.truncated == st.4
            &&& evidence_digest(views(res.graph_evidence@), st.2)
            &&& views(res.tests@) == test_paths(st.0)
            &&& res.findings@.len() == first_n(finding_hits(request.findings@, st.0), 50).len()
            &&& forall|k: int| 0 <= k < res.findings@.len() ==> (#[trigger] res.findings@[k]).same_as(first_n(finding_hits(request.findings@, st.0), 50)[k])
            &&& res.library_matches@.len() == first_n(library_hits(request.library@, needle), 10).len()
            &&& forall|k: int| 0 <= k < res.library_matches@.len() ==> (#[trigger] res.library_matches@[k]).same_as(first_n(library_hits(request.library@, needle), 10)[k])
            &&& res.feature_matches@.len() == first_n(feature_hits(request.features@, needle), 10).len()
            &&& forall|k: int| 0 <= k < res.feature_matches@.len() ==> (#[trigger] res.feature_matches@[k]).same_as(first_n(feature_hits(request.features@, needle), 10)[k])
        }),
        word_matches_kept(request.features@, spec_to_lowercase(request.task@), res.feature_matches@),
{
    let manager = TokenBudgetManager { configured_max: 200_000, reserve: 20_000 };
    let budget = manager.context_cap(request.requested_tokens);
    let ids = considered(request.explicit_ids, ranked);
    let (selected, snippets, mut evidence, tokens, truncated) = walk(request.graph, request.explicit_ids, &ids, sources, budget);
    let ghost st = pack_walk(*request.graph, sources@, budget as int, views(ids@));
    proof {
        lemma_walk_tokens(*request.graph, sources@, budget as int, views(ids@));
    }
    cut_evidence(&mut evidence, Ghost(st.2));
    let needle = chars_of(to_lowercase(request.task).as_str());
    let library_matches = library_matches(request.library, &needle);
    let feature_matches = feature_matches(request.features, &needle);
    assert(needle@ == spec_to_lowercase(request.task@));

    let findings = finding_matches(request.findings, &selected, Ghost(st.0), Ghost(views(request.explicit_ids@)));
    let tests = test_paths_of(&selected, Ghost(st.0), Ghost(views(request.explicit_ids@)));
    let provenance = vec![
        String::from_str("persisted ProjectGraph"),
        String::from_str("first-party source excerpts"),
        String::from_str("deterministic search and neighborhood selection"),
    ];
    assert(views(provenance@) =~= pack_provenance());
    ContextPack {
        intent: request.intent,
        project_id: String::from_str(request.project_id),
        project_summary: summary_of(request.graph),
        selected_entities: selected,
        graph_evidence: evidence,
        source_snippets: snippets,
        tests,
        findings,
        library_matches,
        feature_matches,
        token_estimate: tokens,
        max_tokens: budget,
        truncated,
        provenance,
    }
}

/// However much is requested, the budget of a pack lies between 1 000 and 180 000 tokens.
pub proof fn lemma_pack_budget_capped(requested: Option<usize>)
    ensures
        1_000 <= pack_budget(requested) <= 180_000,
{
}

} // verus!
