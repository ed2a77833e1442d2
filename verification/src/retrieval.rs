//! Context for a question: numbered first-party source around the nodes it concerns, within
//! byte budgets, with a citation per quoted excerpt.
use vstd::prelude::*;
use vstd::utf8::encode_utf8;

use crate::context::{RetrievedContext, redact_sensitive_line, sensitive_path, spec_sensitive_path};
use crate::context_pack::{absorb, find_source, first_n, first_occurrences, shown_line, source_of};
use crate::findings::SourceText;
use crate::model::{CodeEdge, CodeNode, ProjectGraph, SourceScope};
use crate::text::{append_chars, chars_of, decimal, spec_decimal, spec_lines, split_lines, string_of, views};

verus! {

/// Most bytes of quoted text in one context.
pub const MAX_CONTEXT_BYTES: usize = 40_000;

// ---------------------------------------------------------------------------
// Byte lengths
// ---------------------------------------------------------------------------

/// Length in bytes of the UTF-8 encoding of a text.
pub open spec fn byte_len(s: Seq<char>) -> int {
    encode_utf8(s).len() as int
}

proof fn lemma_byte_len_bounds(s: Seq<char>)
    ensures
        s.len() <= byte_len(s) <= 4 * s.len(),
    decreases s.len(),
{
    if s.len() > 0 {
        lemma_byte_len_bounds(s.drop_first());
    }
}

proof fn lemma_byte_len_concat(a: Seq<char>, b: Seq<char>)
    ensures
        byte_len(a + b) == byte_len(a) + byte_len(b),
    decreases a.len(),
{
    if a.len() == 0 {
        assert(a + b =~= b);
    } else {
        assert((a + b).drop_first() =~= a.drop_first() + b);
        assert((a + b)[0] == a[0]);
        lemma_byte_len_concat(a.drop_first(), b);
    }
}

/// The byte length of a text of at most a million characters.
fn byte_count(s: &String) -> (res: usize)
    requires
        s@.len() <= 1_000_000,
    ensures
        res == byte_len(s@),
{
    proof {
        lemma_byte_len_bounds(s@);
    }
    s.as_str().len()
}

// ---------------------------------------------------------------------------
// Which nodes a question concerns
// ---------------------------------------------------------------------------

/// The ids among `ids` that designate nodes of the graph, in order.
pub open spec fn known_ids(g: ProjectGraph, ids: Seq<Seq<char>>) -> Seq<Seq<char>>
    decreases ids.len(),
{
    if ids.len() == 0 {
        ids
    } else {
        let k = known_ids(g, ids.drop_last());
        if g.has_node(ids.last()) { k.push(ids.last()) } else { k }
    }
}

/// The neighbours of `id` in edge order: the target of each edge leaving it and the source
/// of each edge reaching it.
pub open spec fn neighbor_ids(edges: Seq<CodeEdge>, id: Seq<char>) -> Seq<Seq<char>>
    decreases edges.len(),
{
    if edges.len() == 0 {
        Seq::empty()
    } else {
        let rest = neighbor_ids(edges.drop_last(), id);
        let e = edges.last();
        if e.source_id@ == id {
            rest.push(e.target_id@)
        } else if e.target_id@ == id {
            rest.push(e.source_id@)
        } else {
            rest
        }
    }
}

/// The ids a question considers: the focus when it is a node, the first 8 ranked nodes,
/// the first 12 neighbours of the focus, each once, at most 20.
pub open spec fn question_ids(g: ProjectGraph, focus: Option<Seq<char>>, ranked: Seq<Seq<char>>) -> Seq<Seq<char>> {
    let own: Seq<Seq<char>> = match focus {
        Some(f) => if g.has_node(f) { seq![f] } else { Seq::empty() },
        None => Seq::empty(),
    };
    let near: Seq<Seq<char>> = match focus {
        Some(f) => first_n(known_ids(g, neighbor_ids(g.edges@, f)), 12),
        None => Seq::empty(),
    };
    first_n(first_occurrences(own + first_n(known_ids(g, ranked), 8) + near), 20)
}

/// The nodes the ids designate.
pub open spec fn nodes_of(g: ProjectGraph, ids: Seq<Seq<char>>) -> Seq<CodeNode> {
    ids.map_values(|id: Seq<char>| g.nodes@[g.node_index(id)])
}

// ---------------------------------------------------------------------------
// Numbered excerpts
// ---------------------------------------------------------------------------

/// A line number right-aligned in five columns.
pub open spec fn number_field(n: nat) -> Seq<char> {
    let d = spec_decimal(n);
    if d.len() >= 5 { d } else { Seq::new((5 - d.len()) as nat, |i: int| ' ') + d }
}

/// What marks a line cut at 600 characters.
pub open spec fn truncation_note() -> Seq<char> {
    " \u{2026}[line truncated]"@
}

/// A quoted line: its number, a bar, its first 600 characters as they may be shown, the
/// truncation note when the line is longer, and a newline.
pub open spec fn rendered_line(number: nat, line: Seq<char>) -> Seq<char> {
    number_field(number) + " | "@ + first_n(shown_line(line), 600)
        + (if line.len() > 600 { truncation_note() } else { Seq::empty() }) + "\n"@
}

/// Lines `i..end` (zero-based) appended to `acc` while the excerpt stays within 12 000
/// bytes: the excerpt and the number of the last line it holds (`last` when none is added).
pub open spec fn snippet_from(lines: Seq<Seq<char>>, i: int, end: int, acc: Seq<char>, last: int) -> (Seq<char>, int)
    decreases end - i,
{
    if i < 0 || i >= end || i >= lines.len() {
        (acc, last)
    } else {
        let r = rendered_line((i + 1) as nat, lines[i]);
        if byte_len(acc) + byte_len(r) > 12_000 {
            (acc, last)
        } else {
            snippet_from(lines, i + 1, end, acc + r, i + 1)
        }
    }
}

/// The lines quoted around a node: from three lines before its start (at least line 1) to
/// three lines after its end, at most 120 lines after the first.
pub open spec fn context_bounds(n: CodeNode) -> (int, int) {
    let s0: int = match n.start_line {
        Some(s) => s as int,
        None => 1,
    };
    let start: int = if s0 - 3 >= 1 { s0 - 3 } else { 1 };
    let e0: int = match n.end_line {
        Some(e) => e as int,
        None => start,
    };
    let e1: int = if e0 + 3 <= usize::MAX { e0 + 3 } else { usize::MAX as int };
    let cap: int = if start + 120 <= usize::MAX { start + 120 } else { usize::MAX as int };
    (start, if e1 <= cap { e1 } else { cap })
}

/// Code of the project itself or of a package of its workspace.
pub open spec fn first_party(scope: SourceScope) -> bool {
    scope == SourceScope::Project || scope == SourceScope::WorkspacePackage
}

/// The citation and the block a node contributes, if any: none without a path, for a
/// sensitive path, for code that is not first-party, when no text was read for the path, or
/// when no line could be quoted.
pub open spec fn node_block(sources: Seq<SourceText>, n: CodeNode) -> Option<(Seq<char>, Seq<char>)> {
    match n.path {
        None => None,
        Some(p) => if spec_sensitive_path(p@) || !first_party(n.source_scope) {
            None
        } else {
            match source_of(sources, p@) {
                None => None,
                Some(t) => {
                    let start = context_bounds(n).0;
                    let quoted = snippet_from(spec_lines(t), start - 1, context_bounds(n).1, Seq::empty(), start);
                    if quoted.0.len() == 0 {
                        None
                    } else {
                        let citation = p@ + ":"@ + spec_decimal(start as nat) + "-"@ + spec_decimal(quoted.1 as nat);
                        Some((citation, "\nSOURCE "@ + citation + "\nNODE "@ + n.kind.spec_name() + " "@ + n.name@ + "\n"@
                            + quoted.0 + "\n"@))
                    }
                }
            }
        }
    }
}

/// Blocks of `nodes[i..]` appended to `text` while it stays within 40 000 bytes, with their
/// citations.
pub open spec fn context_from(sources: Seq<SourceText>, nodes: Seq<CodeNode>, i: int, text: Seq<char>, cites: Seq<Seq<char>>) -> (Seq<char>, Seq<Seq<char>>)
    decreases nodes.len() - i,
{
    if i < 0 || i >= nodes.len() {
        (text, cites)
    } else {
        match node_block(sources, nodes[i]) {
            None => context_from(sources, nodes, i + 1, text, cites),
            Some(b) => if byte_len(text) + byte_len(b.1) > 40_000 {
                (text, cites)
            } else {
                context_from(sources, nodes, i + 1, text + b.1, cites.push(b.0))
            },
        }
    }
}

/// The focus as a text, if any.
pub open spec fn focus_view(focus: Option<&str>) -> Option<Seq<char>> {
    match focus {
        Some(f) => Some(f@),
        None => None,
    }
}

// ---------------------------------------------------------------------------
// Executable parts
// ---------------------------------------------------------------------------

fn number_chars(n: usize) -> (res: Vec<char>)
    ensures
        res@ == number_field(n as nat),
{
    let d = decimal(n);
    if d.len() >= 5 {
        return d;
    }
    let pad = 5 - d.len();
    let mut out: Vec<char> = Vec::new();
    let mut i: usize = 0;
    while i < pad
        invariant
            i <= pad,
            out@ =~= Seq::new(i as nat, |k: int| ' '),
        decreases pad - i,
    {
        out.push(' ');
        i = i + 1;
    }
    append_chars(&mut out, &d);
    out
}

fn render_line(number: usize, line: &Vec<char>) -> (res: String)
    ensures
        res@ == rendered_line(number as nat, line@),
        res@.len() <= 660 + spec_decimal(number as nat).len(),
{
    let shown = chars_of(redact_sensitive_line(string_of(line).as_str()).as_str());
    let keep = if shown.len() <= 600 { shown.len() } else { 600 };
    let mut out = number_chars(number);
    append_chars(&mut out, &chars_of(" | "));
    let mut i: usize = 0;
    while i < keep
        invariant
            i <= keep <= shown@.len(),
            out@ == number_field(number as nat) + " | "@ + shown@.subrange(0, i as int),
        decreases keep - i,
    {
        out.push(shown[i]);
        proof {
            assert(shown@.subrange(0, i + 1) =~= shown@.subrange(0, i as int).push(shown@[i as int]));
        }
        i = i + 1;
    }
    assert(shown@.subrange(0, keep as int) =~= first_n(shown_line(line@), 600));
    let long = line.len() > 600;
    if long {
        append_chars(&mut out, &chars_of(" \u{2026}[line truncated]"));
    }
    append_chars(&mut out, &chars_of("\n"));
    proof {
        reveal_strlit(" | ");
        reveal_strlit(" \u{2026}[line truncated]");
        reveal_strlit("\n");
        let d = spec_decimal(number as nat);
        assert(number_field(number as nat).len() <= d.len() + 5);
        if long {
            assert(out@ =~= number_field(number as nat) + " | "@ + first_n(shown_line(line@), 600)
                + truncation_note() + "\n"@);
        } else {
            assert(out@ =~= number_field(number as nat) + " | "@ + first_n(shown_line(line@), 600)
                + Seq::<char>::empty() + "\n"@);
        }
    }
    string_of(&out)
}


fn quote(text: &String, start: usize, end: usize) -> (res: (String, usize))
    requires
        start >= 1,
    ensures
        (res.0@, res.1 as int) == snippet_from(spec_lines(text@), start - 1, end as int, Seq::empty(), start as int),
        byte_len(res.0@) <= 12_000,
{
    let chars = chars_of(text.as_str());
    let lines = split_lines(&chars);
    let ghost ls = spec_lines(text@);
    let ghost goal = snippet_from(ls, start - 1, end as int, Seq::empty(), start as int);
    let mut snippet = string_of(&Vec::new());
    let mut bytes: usize = 0;
    let mut last: usize = start;
    let mut i: usize = start - 1;
    proof {
        assert(snippet@ =~= Seq::<char>::empty());
        assert(encode_utf8(Seq::<char>::empty()) =~= Seq::<u8>::empty());
    }
    while i < end && i < lines.len()
        invariant
            chars@ == text@,
            ls == spec_lines(text@),
            lines@.len() == ls.len(),
            forall|k: int| 0 <= k < lines@.len() ==> (#[trigger] lines@[k])@ == ls[k],
            bytes == byte_len(snippet@),
            bytes <= 12_000,
            goal == snippet_from(ls, i as int, end as int, snippet@, last as int),
        ensures
            goal == (snippet@, last as int),
            bytes == byte_len(snippet@),
            bytes <= 12_000,
        decreases lines.len() - i,
    {
        let r = render_line(i + 1, &lines[i]);
        let rlen = r.as_str().unicode_len();
        if rlen > 12_000 {
            proof {
                lemma_byte_len_bounds(r@);
            }
            break;
        }
        let rb = byte_count(&r);
        if rb > 12_000 - bytes {
            break;
        }
        proof {
            lemma_byte_len_concat(snippet@, r@);
        }
        snippet = crate::text::concat_str(snippet.as_str(), r.as_str());
        bytes = bytes + rb;
        last = i + 1;
        i = i + 1;
    }
    (snippet, last)
}

fn block_of(sources: &Vec<SourceText>, n: &CodeNode) -> (res: Option<(String, String)>)
    ensures
        match res {
            Some(b) => node_block(sources@, *n) == Some((b.0@, b.1@)),
            None => node_block(sources@, *n) is None,
        },
{
    let p = match &n.path {
        None => return None,
        Some(p) => p,
    };
    if sensitive_path(p.as_str()) || !(n.source_scope == SourceScope::Project || n.source_scope == SourceScope::WorkspacePackage) {
        return None;
    }
    let t = match find_source(sources, p.as_str()) {
        None => return None,
        Some(t) => t,
    };
    let s0: usize = match n.start_line {
        Some(s) => s,
        None => 1,
    };
    let start: usize = if s0 >= 4 { s0 - 3 } else { 1 };
    let e0: usize = match n.end_line {
        Some(e) => e,
        None => start,
    };
    let e1: usize = if e0 <= usize::MAX - 3 { e0 + 3 } else { usize::MAX };
    let cap: usize = if start <= usize::MAX - 120 { start + 120 } else { usize::MAX };
    let end: usize = if e1 <= cap { e1 } else { cap };
    assert(context_bounds(*n) == (start as int, end as int));
    let (snippet, last) = quote(t, start, end);
    if snippet.as_str().unicode_len() == 0 {
        return None;
    }
    let mut citation = chars_of(p.as_str());
    append_chars(&mut citation, &chars_of(":"));
    append_chars(&mut citation, &decimal(start));
    append_chars(&mut citation, &chars_of("-"));
    append_chars(&mut citation, &decimal(last));
    let mut block = chars_of("\nSOURCE ");
    append_chars(&mut block, &citation);
    append_chars(&mut block, &chars_of("\nNODE "));
    append_chars(&mut block, &chars_of(n.kind.as_str()));
    append_chars(&mut block, &chars_of(" "));
    append_chars(&mut block, &chars_of(n.name.as_str()));
    append_chars(&mut block, &chars_of("\n"));
    append_chars(&mut block, &chars_of(snippet.as_str()));
    append_chars(&mut block, &chars_of("\n"));
    Some((string_of(&citation), string_of(&block)))
}

proof fn lemma_known_are_nodes(g: ProjectGraph, ids: Seq<Seq<char>>)
    ensures
        forall|k: int| 0 <= k < known_ids(g, ids).len() ==> g.has_node(#[trigger] known_ids(g, ids)[k]),
        known_ids(g, ids).len() <= ids.len(),
    decreases ids.len(),
{
    if ids.len() > 0 {
        lemma_known_are_nodes(g, ids.drop_last());
    }
}

proof fn lemma_first_occurrences_within(s: Seq<Seq<char>>)
    ensures
        forall|k: int| 0 <= k < first_occurrences(s).len() ==> s.contains(#[trigger] first_occurrences(s)[k]),
    decreases s.len(),
{
    if s.len() > 0 {
        lemma_first_occurrences_within(s.drop_last());
        let d = first_occurrences(s.drop_last());
        assert forall|k: int| 0 <= k < first_occurrences(s).len() implies s.contains(#[trigger] first_occurrences(s)[k]) by {
            if k < d.len() {
                let j = choose|j: int| 0 <= j < s.drop_last().len() && s.drop_last()[j] == d[k];
                assert(s[j] == d[k]);
            } else {
                assert(s[s.len() - 1] == s.last());
            }
        }
    }
}

fn known(graph: &ProjectGraph, ids: &Vec<String>, limit: usize) -> (res: Vec<String>)
    ensures
        views(res@) == first_n(known_ids(*graph, views(ids@)), limit as int),
{
    let ghost all = views(ids@);
    let mut out: Vec<String> = Vec::new();
    let mut k: usize = 0;
    while k < ids.len()
        invariant
            k <= ids@.len(),
            all == views(ids@),
            views(out@) == known_ids(*graph, all.subrange(0, k as int)),
        decreases ids.len() - k,
    {
        assert(all.subrange(0, k + 1).drop_last() =~= all.subrange(0, k as int));
        if graph.find_node_index(ids[k].as_str()).is_some() {
            out.push(ids[k].clone());
            assert(views(out@) =~= known_ids(*graph, all.subrange(0, k as int)).push(all[k as int]));
        }
        k = k + 1;
    }
    assert(all.subrange(0, ids@.len() as int) =~= all);
    if out.len() > limit {
        out.truncate(limit);
        assert(views(out@) =~= known_ids(*graph, all).subrange(0, limit as int));
    }
    out
}

fn neighbors_of(graph: &ProjectGraph, id: &str) -> (res: Vec<String>)
    ensures
        views(res@) == neighbor_ids(graph.edges@, id@),
{
    let ghost edges = graph.edges@;
    let mut out: Vec<String> = Vec::new();
    let mut k: usize = 0;
    while k < graph.edges.len()
        invariant
            k <= edges.len(),
            edges == graph.edges@,
            views(out@) == neighbor_ids(edges.subrange(0, k as int), id@),
        decreases graph.edges.len() - k,
    {
        let e = &graph.edges[k];
        assert(edges.subrange(0, k + 1).drop_last() =~= edges.subrange(0, k as int));
        assert(edges.subrange(0, k + 1).last() == edges[k as int]);
        if crate::model::str_equal(e.source_id.as_str(), id) {
            out.push(e.target_id.clone());
            assert(views(out@) =~= neighbor_ids(edges.subrange(0, k as int), id@).push(e.target_id@));
        } else if crate::model::str_equal(e.target_id.as_str(), id) {
            out.push(e.source_id.clone());
            assert(views(out@) =~= neighbor_ids(edges.subrange(0, k as int), id@).push(e.source_id@));
        }
        k = k + 1;
    }
    assert(edges.subrange(0, edges.len() as int) =~= edges);
    out
}

fn absorb_all(out: &mut Vec<String>, list: &Vec<String>, Ghost(prefix): Ghost<Seq<Seq<char>>>)
    requires
        views(old(out)@) == first_occurrences(prefix),
    ensures
        views(final(out)@) == first_occurrences(prefix + views(list@)),
{
    let ghost l = views(list@);
    let mut k: usize = 0;
    while k < list.len()
        invariant
            k <= list@.len(),
            l == views(list@),
            views(out@) == first_occurrences(prefix + l.subrange(0, k as int)),
        decreases list.len() - k,
    {
        absorb(out, &list[k], Ghost(prefix + l.subrange(0, k as int)));
        assert((prefix + l.subrange(0, k as int)).push(list@[k as int]@) =~= prefix + l.subrange(0, k + 1));
        k = k + 1;
    }
    assert(l.subrange(0, l.len() as int) =~= l);
}

fn question_ids_of(graph: &ProjectGraph, focus: Option<&str>, ranked: &Vec<String>) -> (res: Vec<String>)
    ensures
        views(res@) == question_ids(*graph, focus_view(focus), views(ranked@)),
        forall|k: int| 0 <= k < res@.len() ==> graph.has_node(#[trigger] res@[k]@),
{
    let ghost g = *graph;
    let mut ids: Vec<String> = Vec::new();
    let mut own: Vec<String> = Vec::new();
    if let Some(f) = focus {
        if graph.find_node_index(f).is_some() {
            own.push(String::from_str(f));
        }
    }
    let ghost own_ids: Seq<Seq<char>> = match focus_view(focus) {
        Some(f) => if g.has_node(f) { seq![f] } else { Seq::empty() },
        None => Seq::empty(),
    };
    assert(views(own@) =~= own_ids);
    assert(first_occurrences(Seq::<Seq<char>>::empty()) =~= views(ids@));
    absorb_all(&mut ids, &own, Ghost(Seq::empty()));
    let hits = known(graph, ranked, 8);
    absorb_all(&mut ids, &hits, Ghost(Seq::<Seq<char>>::empty() + own_ids));
    let mut near: Vec<String> = Vec::new();
    if let Some(f) = focus {
        let around = neighbors_of(graph, f);
        near = known(graph, &around, 12);
    }
    let ghost near_ids: Seq<Seq<char>> = match focus_view(focus) {
        Some(f) => first_n(known_ids(g, neighbor_ids(g.edges@, f)), 12),
        None => Seq::empty(),
    };
    assert(views(near@) =~= near_ids);
    let ghost hit_ids = first_n(known_ids(g, views(ranked@)), 8);
    absorb_all(&mut ids, &near, Ghost(Seq::<Seq<char>>::empty() + own_ids + hit_ids));
    let ghost all = own_ids + hit_ids + near_ids;
    assert(Seq::<Seq<char>>::empty() + own_ids + hit_ids + near_ids =~= all);
    proof {
        lemma_known_are_nodes(g, views(ranked@));
        match focus_view(focus) {
            Some(f) => lemma_known_are_nodes(g, neighbor_ids(g.edges@, f)),
            None => {},
        }
        lemma_first_occurrences_within(all);
        assert forall|x: Seq<char>| all.contains(x) implies g.has_node(x) by {
            let j = choose|j: int| 0 <= j < all.len() && all[j] == x;
            if j < own_ids.len() {
            } else if j < own_ids.len() + hit_ids.len() {
                assert(hit_ids[j - own_ids.len()] == x);
            } else {
                assert(near_ids[j - own_ids.len() - hit_ids.len()] == x);
            }
        }
    }
    if ids.len() > 20 {
        ids.truncate(20);
    }
    proof {
        assert(views(ids@) =~= first_n(first_occurrences(all), 20));
        assert forall|k: int| 0 <= k < ids@.len() implies graph.has_node(#[trigger] ids@[k]@) by {
            assert(views(ids@)[k] == first_occurrences(all)[k]);
        }
    }
    ids
}

/// Quotes first-party source around the nodes a question concerns: the focus node, the
/// first 8 nodes among `ranked` (the search hits for the question, best first) and the
/// first 12 neighbours of the focus, each once and at most 20 of them. `sources` holds the
/// text read for each path. Each excerpt spans three lines around the node, is numbered,
/// redacts secret assignments, cuts lines at 600 characters, and stays within 12 000 bytes;
/// the whole text stays within 40 000 bytes, and each block has a citation
/// `path:first-last`.
pub fn build_context(graph: &ProjectGraph, focus: Option<&str>, ranked: &Vec<String>, sources: &Vec<SourceText>) -> (res: RetrievedContext)
    ensures
        (res.text@, views(res.citations@)) == context_from(
            sources@,
            nodes_of(*graph, question_ids(*graph, focus_view(focus), views(ranked@))),
            0,
            Seq::empty(),
            Seq::empty(),
        ),
        byte_len(res.text@) <= MAX_CONTEXT_BYTES,
{
    let ids = question_ids_of(graph, focus, ranked);
    let ghost nodes = nodes_of(*graph, views(ids@));
    let ghost goal = context_from(sources@, nodes, 0, Seq::empty(), Seq::empty());
    let mut text = string_of(&Vec::new());
    let mut citations: Vec<String> = Vec::new();
    let mut bytes: usize = 0;
    proof {
        assert(encode_utf8(Seq::<char>::empty()) =~= Seq::<u8>::empty());
        assert(text@ =~= Seq::<char>::empty());
        assert(views(citations@) =~= Seq::<Seq<char>>::empty());
    }
    let mut k: usize = 0;
    while k < ids.len()
        invariant
            k <= ids@.len(),
            nodes == nodes_of(*graph, views(ids@)),
            forall|j: int| 0 <= j < ids@.len() ==> graph.has_node(#[trigger] ids@[j]@),
            bytes == byte_len(text@),
            bytes <= 40_000,
            goal == context_from(sources@, nodes, k as int, text@, views(citations@)),
        ensures
            goal == (text@, views(citations@)),
            bytes == byte_len(text@),
            bytes <= 40_000,
        decreases ids.len() - k,
    {
        let n = match graph.find_node(ids[k].as_str()) {
            Some(n) => n,
            None => {
                assert(graph.has_node(ids@[k as int]@));
                break;
            },
        };
        assert(*n == nodes[k as int]);
        let ghost before_text = text@;
        let ghost before_cites = views(citations@);
        match block_of(sources, n) {
            None => {
                assert(context_from(sources@, nodes, k as int, before_text, before_cites)
                    == context_from(sources@, nodes, k + 1, before_text, before_cites));
            },
            Some((citation, block)) => {
                let blen = block.as_str().unicode_len();
                if blen > 40_000 {
                    proof {
                        lemma_byte_len_bounds(block@);
                    }
                    break;
                }
                let bb = byte_count(&block);
                if bb > 40_000 - bytes {
                    break;
                }
                proof {
                    lemma_byte_len_concat(text@, block@);
                }
                text = crate::text::concat_str(text.as_str(), block.as_str());
                citations.push(citation);
                proof {
                    assert(views(citations@) =~= views(citations@.drop_last()).push(citations@.last()@));
                }
                bytes = bytes + bb;
                assert(context_from(sources@, nodes, k as int, before_text, before_cites)
                    == context_from(sources@, nodes, k + 1, before_text + block@, before_cites.push(citation@)));
                assert(text@ == before_text + block@);
                assert(views(citations@) =~= before_cites.push(citation@));
            },
        }
        k = k + 1;
    }
    RetrievedContext { text, citations }
}


// ---------------------------------------------------------------------------
// What a context may quote
// ---------------------------------------------------------------------------

/// The citation of a block, if there is one.
pub open spec fn has_citation(block: Option<(Seq<char>, Seq<char>)>, c: Seq<char>) -> bool {
    match block {
        Some(b) => b.0 == c,
        None => false,
    }
}

/// `c` is the citation of a node of `nodes` whose path is not sensitive and whose code is
/// first-party.
pub open spec fn safely_cited(sources: Seq<SourceText>, nodes: Seq<CodeNode>, c: Seq<char>) -> bool {
    exists|j: int| 0 <= j < nodes.len() && (#[trigger] nodes[j]).path is Some
        && !spec_sensitive_path(nodes[j].path->0@) && first_party(nodes[j].source_scope)
        && has_citation(node_block(sources, nodes[j]), c)
}

proof fn lemma_walk_cites_safely(sources: Seq<SourceText>, nodes: Seq<CodeNode>, i: int, text: Seq<char>, cites: Seq<Seq<char>>)
    requires
        forall|k: int| 0 <= k < cites.len() ==> safely_cited(sources, nodes, #[trigger] cites[k]),
    ensures
        forall|k: int| 0 <= k < context_from(sources, nodes, i, text, cites).1.len()
            ==> safely_cited(sources, nodes, #[trigger] context_from(sources, nodes, i, text, cites).1[k]),
    decreases nodes.len() - i,
{
    if 0 <= i < nodes.len() {
        match node_block(sources, nodes[i]) {
            None => {
                lemma_walk_cites_safely(sources, nodes, i + 1, text, cites);
                assert(context_from(sources, nodes, i, text, cites) == context_from(sources, nodes, i + 1, text, cites));
            },
            Some(b) => {
                if byte_len(text) + byte_len(b.1) <= 40_000 {
                    let next = cites.push(b.0);
                    assert forall|k: int| 0 <= k < next.len() implies safely_cited(sources, nodes, #[trigger] next[k]) by {
                        if k == cites.len() {
                            assert(nodes[i].path is Some);
                            assert(has_citation(node_block(sources, nodes[i]), next[k]));
                        } else {
                            assert(next[k] == cites[k]);
                        }
                    }
                    lemma_walk_cites_safely(sources, nodes, i + 1, text + b.1, next);
                    assert(context_from(sources, nodes, i, text, cites) == context_from(sources, nodes, i + 1, text + b.1, next));
                }
            },
        }
    }
}

/// A context quotes only first-party files whose path is not sensitive (environment files,
/// keys, credentials, secrets): every citation is that of such a node among those the
/// question concerns.
pub proof fn law_context_quotes_no_sensitive_file(g: ProjectGraph, focus: Option<Seq<char>>, ranked: Seq<Seq<char>>, sources: Seq<SourceText>)
    ensures
        forall|k: int| 0 <= k < context_from(sources, nodes_of(g, question_ids(g, focus, ranked)), 0, Seq::empty(), Seq::empty()).1.len()
            ==> safely_cited(sources, nodes_of(g, question_ids(g, focus, ranked)),
                #[trigger] context_from(sources, nodes_of(g, question_ids(g, focus, ranked)), 0, Seq::empty(), Seq::empty()).1[k]),
{
    lemma_walk_cites_safely(sources, nodes_of(g, question_ids(g, focus, ranked)), 0, Seq::empty(), Seq::empty());
}

} // verus!
