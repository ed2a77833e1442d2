//! Assembling the project graph: duplicates, import edges and calls resolved by name.
use vstd::prelude::*;

use crate::model::{
    CallReference, CodeEdge, CodeNode, ImportReference, ModuleReference, NodeKind, ProgrammingLanguage, ProjectFile,
    RelationKind, SourceScope, copy_opt_string, str_equal,
};
use crate::text::{
    chars_of, first_occurrence_from, find_str, is_alphanumeric, is_whitespace, slice_chars, spec_is_alphanumeric,
    spec_lines, spec_trim, spec_trim_start, split_lines, string_of, strip_prefix, strip_prefix_exec, trim, trim_start,
    views, holds,
};

verus! {

/// The analyzer of a project directory.
#[derive(Clone, Copy, Debug)]
pub struct ProjectAnalyzer;

/// Progress of an analysis, reported stage by stage.
#[derive(Clone, Debug)]
pub struct AnalysisUpdate {
    pub stage: &'static str,
    pub processed: usize,
    pub total: usize,
    pub nodes: usize,
    pub edges: usize,
    pub current_file: Option<String>,
}

// ---------------------------------------------------------------------------
// Incremental analysis
// ---------------------------------------------------------------------------

/// Which files of a new scan reuse their previous analysis and which are parsed again:
/// positions in the scan, in order.
#[derive(Clone, Debug)]
pub struct AnalysisPlan {
    pub reused: Vec<usize>,
    pub to_parse: Vec<usize>,
}

/// The content hash the previous scan recorded for a path: that of its last file with the
/// path, none when it had no such file.
pub open spec fn previous_hash(previous: Seq<ProjectFile>, path: Seq<char>) -> Option<Seq<char>>
    decreases previous.len(),
{
    if previous.len() == 0 {
        None
    } else if previous.last().path@ == path {
        Some(previous.last().hash@)
    } else {
        previous_hash(previous.drop_last(), path)
    }
}

/// A file keeps its previous analysis when its content hash is unchanged and that analysis
/// is at hand.
pub open spec fn reusable(previous: Seq<ProjectFile>, cached: Seq<String>, file: ProjectFile) -> bool {
    previous_hash(previous, file.path@) == Some(file.hash@) && views(cached).contains(file.path@)
}

/// The positions, among the first `n` files, that keep their analysis (`keep`) or not.
pub open spec fn plan_positions(previous: Seq<ProjectFile>, cached: Seq<String>, current: Seq<ProjectFile>, n: int, keep: bool) -> Seq<usize>
    decreases n,
{
    if n <= 0 {
        seq![]
    } else {
        plan_positions(previous, cached, current, n - 1, keep) + if reusable(previous, cached, current[n - 1]) == keep {
            seq![(n - 1) as usize]
        } else {
            seq![]
        }
    }
}

/// Every file of the scan is either reused or parsed again, never both.
pub proof fn law_plan_covers_each_file_once(previous: Seq<ProjectFile>, cached: Seq<String>, current: Seq<ProjectFile>, n: int)
    requires
        0 <= n <= current.len(),
        current.len() <= usize::MAX,
    ensures
        plan_positions(previous, cached, current, n, true).len() + plan_positions(previous, cached, current, n, false).len() == n,
        forall|k: int| 0 <= k < n ==> (plan_positions(previous, cached, current, n, true).contains(k as usize)
            <==> reusable(previous, cached, #[trigger] current[k])),
        forall|k: int| 0 <= k < n ==> (plan_positions(previous, cached, current, n, false).contains(k as usize)
            <==> !reusable(previous, cached, #[trigger] current[k])),
    decreases n,
{
    if n > 0 {
        law_plan_covers_each_file_once(previous, cached, current, n - 1);
        let a = plan_positions(previous, cached, current, n - 1, true);
        let b = plan_positions(previous, cached, current, n - 1, false);
        lemma_positions_below(previous, cached, current, n - 1, true);
        lemma_positions_below(previous, cached, current, n - 1, false);
        let fa = plan_positions(previous, cached, current, n, true);
        let fb = plan_positions(previous, cached, current, n, false);
        if reusable(previous, cached, current[n - 1]) {
            assert(fa =~= a.push((n - 1) as usize));
            assert(fb =~= b);
        } else {
            assert(fa =~= a);
            assert(fb =~= b.push((n - 1) as usize));
        }
        assert forall|k: int| 0 <= k < n implies (plan_positions(previous, cached, current, n, true).contains(k as usize)
            <==> reusable(previous, cached, #[trigger] current[k])) by {
            let full = plan_positions(previous, cached, current, n, true);
            if k < n - 1 {
                if a.contains(k as usize) {
                    let j = choose|j: int| 0 <= j < a.len() && a[j] == k as usize;
                    assert(full[j] == a[j]);
                }
                if full.contains(k as usize) {
                    let j = choose|j: int| 0 <= j < full.len() && full[j] == k as usize;
                    if j < a.len() {
                        assert(full[j] == a[j]);
                    }
                }
            } else {
                if reusable(previous, cached, current[k]) {
                    assert(full[a.len() as int] == k as usize);
                }
                if full.contains(k as usize) {
                    let j = choose|j: int| 0 <= j < full.len() && full[j] == k as usize;
                    if j < a.len() {
                        assert(full[j] == a[j]);
                    }
                }
            }
        }
        assert forall|k: int| 0 <= k < n implies (plan_positions(previous, cached, current, n, false).contains(k as usize)
            <==> !reusable(previous, cached, #[trigger] current[k])) by {
            let full = plan_positions(previous, cached, current, n, false);
            if k < n - 1 {
                if b.contains(k as usize) {
                    let j = choose|j: int| 0 <= j < b.len() && b[j] == k as usize;
                    assert(full[j] == b[j]);
                }
                if full.contains(k as usize) {
                    let j = choose|j: int| 0 <= j < full.len() && full[j] == k as usize;
                    if j < b.len() {
                        assert(full[j] == b[j]);
                    }
                }
            } else {
                if !reusable(previous, cached, current[k]) {
                    assert(full[b.len() as int] == k as usize);
                }
                if full.contains(k as usize) {
                    let j = choose|j: int| 0 <= j < full.len() && full[j] == k as usize;
                    if j < b.len() {
                        assert(full[j] == b[j]);
                    }
                }
            }
        }
    }
}

/// The positions planned among the first `n` files are below `n`.
proof fn lemma_positions_below(previous: Seq<ProjectFile>, cached: Seq<String>, current: Seq<ProjectFile>, n: int, keep: bool)
    requires
        n <= usize::MAX,
    ensures
        forall|j: int| 0 <= j < plan_positions(previous, cached, current, n, keep).len()
            ==> (#[trigger] plan_positions(previous, cached, current, n, keep)[j] as int) < n,
    decreases n,
{
    if n > 0 {
        lemma_positions_below(previous, cached, current, n - 1, keep);
        let a = plan_positions(previous, cached, current, n - 1, keep);
        let full = plan_positions(previous, cached, current, n, keep);
        assert forall|j: int| 0 <= j < full.len() implies (#[trigger] full[j] as int) < n by {
            if j < a.len() {
                assert(full[j] == a[j]);
            }
        }
    }
}

fn previous_hash_of<'a>(previous: &'a Vec<ProjectFile>, path: &str) -> (res: Option<&'a String>)
    ensures
        match res {
            Some(h) => previous_hash(previous@, path@) == Some(h@),
            None => previous_hash(previous@, path@) is None,
        },
{
    let mut k = previous.len();
    assert(previous@.subrange(0, k as int) =~= previous@);
    while k > 0
        invariant
            k <= previous@.len(),
            previous_hash(previous@, path@) == previous_hash(previous@.subrange(0, k as int), path@),
        decreases k,
    {
        k = k - 1;
        assert(previous@.subrange(0, k + 1).drop_last() =~= previous@.subrange(0, k as int));
        if str_equal(previous[k].path.as_str(), path) {
            return Some(&previous[k].hash);
        }
    }
    None
}

/// Plans an incremental analysis: a file of the new scan reuses its previous analysis when
/// the previous scan recorded the same content hash for its path and that analysis is among
/// the cached paths; every other file is parsed again.
pub fn plan_incremental(previous: &Vec<ProjectFile>, cached: &Vec<String>, current: &Vec<ProjectFile>) -> (res: AnalysisPlan)
    ensures
        res.reused@ == plan_positions(previous@, cached@, current@, current@.len() as int, true),
        res.to_parse@ == plan_positions(previous@, cached@, current@, current@.len() as int, false),
{
    let mut reused: Vec<usize> = Vec::new();
    let mut to_parse: Vec<usize> = Vec::new();
    let mut k: usize = 0;
    while k < current.len()
        invariant
            k <= current@.len(),
            reused@ == plan_positions(previous@, cached@, current@, k as int, true),
            to_parse@ == plan_positions(previous@, cached@, current@, k as int, false),
        decreases current.len() - k,
    {
        let file = &current[k];
        let same = match previous_hash_of(previous, file.path.as_str()) {
            Some(h) => str_equal(h.as_str(), file.hash.as_str()),
            None => false,
        };
        if same && holds(cached, file.path.as_str()) {
            reused.push(k);
        } else {
            to_parse.push(k);
        }
        k = k + 1;
    }
    AnalysisPlan { reused, to_parse }
}

// ---------------------------------------------------------------------------
// Duplicates
// ---------------------------------------------------------------------------

/// Some element before position `i` carries the same id as `s[i]`.
pub open spec fn id_seen_before(ids: Seq<Seq<char>>, i: int) -> bool {
    exists|j: int| 0 <= j < i && ids[j] == ids[i]
}

/// The positions kept when only the first element of each id stays, in order.
pub open spec fn first_of_each(ids: Seq<Seq<char>>, n: int) -> Seq<int>
    decreases n,
{
    if n <= 0 {
        Seq::empty()
    } else if id_seen_before(ids, n - 1) {
        first_of_each(ids, n - 1)
    } else {
        first_of_each(ids, n - 1).push(n - 1)
    }
}

pub open spec fn node_ids(nodes: Seq<CodeNode>) -> Seq<Seq<char>> {
    nodes.map_values(|n: CodeNode| n.id@)
}

pub open spec fn edge_ids(edges: Seq<CodeEdge>) -> Seq<Seq<char>> {
    edges.map_values(|e: CodeEdge| e.id@)
}

/// `kept` holds, in order, the elements of `all` at the positions `keep`.
pub open spec fn picks<T>(all: Seq<T>, keep: Seq<int>, kept: Seq<T>) -> bool {
    &&& kept.len() == keep.len()
    &&& forall|k: int| 0 <= k < keep.len() ==> 0 <= #[trigger] keep[k] < all.len() && kept[k] == all[keep[k]]
}

fn contains_id(ids: &Vec<String>, id: &str) -> (res: bool)
    ensures
        res == exists|k: int| 0 <= k < ids@.len() && ids@[k]@ == id@,
{
    let mut k: usize = 0;
    while k < ids.len()
        invariant
            k <= ids@.len(),
            forall|j: int| 0 <= j < k ==> ids@[j]@ != id@,
        decreases ids.len() - k,
    {
        if str_equal(ids[k].as_str(), id) {
            return true;
        }
        k = k + 1;
    }
    false
}

proof fn lemma_first_of_each_bounds(ids: Seq<Seq<char>>, n: int)
    requires
        0 <= n <= ids.len(),
    ensures
        forall|k: int| 0 <= k < first_of_each(ids, n).len() ==> 0 <= #[trigger] first_of_each(ids, n)[k] < n,
    decreases n,
{
    if n > 0 {
        lemma_first_of_each_bounds(ids, n - 1);
        let prev = first_of_each(ids, n - 1);
        let cur = first_of_each(ids, n);
        assert forall|k: int| 0 <= k < cur.len() implies 0 <= #[trigger] cur[k] < n by {
            if k < prev.len() {
                assert(cur[k] == prev[k]);
            }
        }
    }
}

/// The ids kept so far are exactly the ids of the first `n` elements.
proof fn lemma_seen_ids(ids: Seq<Seq<char>>, n: int, kept: Seq<Seq<char>>)
    requires
        0 <= n < ids.len(),
        forall|x: Seq<char>| kept.contains(x) <==> exists|j: int| 0 <= j < n && ids[j] == x,
    ensures
        kept.contains(ids[n]) == id_seen_before(ids, n),
{
    if kept.contains(ids[n]) {
        let j = choose|j: int| 0 <= j < n && ids[j] == ids[n];
        assert(id_seen_before(ids, n));
    }
}

/// Keeps the first node and the first edge of each id, in their order.
pub fn dedupe(nodes: &mut Vec<CodeNode>, edges: &mut Vec<CodeEdge>)
    ensures
        picks(old(nodes)@, first_of_each(node_ids(old(nodes)@), old(nodes)@.len() as int), final(nodes)@),
        picks(old(edges)@, first_of_each(edge_ids(old(edges)@), old(edges)@.len() as int), final(edges)@),
{
    let ghost before_nodes = nodes@;
    let ghost nids = node_ids(before_nodes);
    let mut kept_nodes: Vec<CodeNode> = Vec::new();
    let mut seen: Vec<String> = Vec::new();
    let mut i: usize = 0;
    while i < nodes.len()
        invariant
            i <= nodes@.len(),
            nodes@ == before_nodes,
            nids == node_ids(before_nodes),
            picks(before_nodes, first_of_each(nids, i as int), kept_nodes@),
            forall|x: Seq<char>| #[trigger] views(seen@).contains(x) <==> exists|j: int| 0 <= j < i && nids[j] == x,
        decreases nodes.len() - i,
    {
        let id = nodes[i].id.as_str();
        proof {
            lemma_seen_ids(nids, i as int, views(seen@));
            lemma_first_of_each_bounds(nids, i as int);
            assert(nids[i as int] == id@);
        }
        let was_seen = contains_id(&seen, id);
        proof {
            assert(was_seen == views(seen@).contains(id@)) by {
                if was_seen {
                    let k = choose|k: int| 0 <= k < seen@.len() && seen@[k]@ == id@;
                    assert(views(seen@)[k] == id@);
                }
                if views(seen@).contains(id@) {
                    let k = choose|k: int| 0 <= k < seen@.len() && views(seen@)[k] == id@;
                    assert(seen@[k]@ == id@);
                }
            }
        }
        if !was_seen {
            let ghost old_seen = views(seen@);
            seen.push(String::from_str(id));
            kept_nodes.push(nodes[i].duplicate());
            proof {
                assert(views(seen@) =~= old_seen.push(id@));
                assert forall|x: Seq<char>| #[trigger] views(seen@).contains(x) <==> exists|j: int|
                    0 <= j < i + 1 && nids[j] == x by {
                    if views(seen@).contains(x) && x != id@ {
                        assert(old_seen.contains(x)) by {
                            let k = choose|k: int| 0 <= k < old_seen.len() + 1 && views(seen@)[k] == x;
                            assert(old_seen[k] == x);
                        }
                    }
                    if exists|j: int| 0 <= j < i + 1 && nids[j] == x {
                        let j = choose|j: int| 0 <= j < i + 1 && nids[j] == x;
                        if j < i {
                            assert(old_seen.contains(x));
                            let k = choose|k: int| 0 <= k < old_seen.len() && old_seen[k] == x;
                            assert(views(seen@)[k] == x);
                        } else {
                            assert(views(seen@)[old_seen.len() as int] == x);
                        }
                    }
                }
            }
        } else {
            proof {
                assert forall|x: Seq<char>| #[trigger] views(seen@).contains(x) <==> exists|j: int|
                    0 <= j < i + 1 && nids[j] == x by {
                    if exists|j: int| 0 <= j < i + 1 && nids[j] == x {
                        let j = choose|j: int| 0 <= j < i + 1 && nids[j] == x;
                        if j == i {
                            let j2 = choose|j2: int| 0 <= j2 < i && nids[j2] == nids[i as int];
                            assert(nids[j2] == x);
                        }
                    }
                }
            }
        }
        i = i + 1;
    }
    *nodes = kept_nodes;
    let ghost before_edges = edges@;
    let ghost eids = edge_ids(before_edges);
    let mut kept_edges: Vec<CodeEdge> = Vec::new();
    let mut seen_edges: Vec<String> = Vec::new();
    let mut i: usize = 0;
    while i < edges.len()
        invariant
            i <= edges@.len(),
            edges@ == before_edges,
            eids == edge_ids(before_edges),
            picks(before_edges, first_of_each(eids, i as int), kept_edges@),
            forall|x: Seq<char>| #[trigger] views(seen_edges@).contains(x) <==> exists|j: int| 0 <= j < i && eids[j] == x,
        decreases edges.len() - i,
    {
        let id = edges[i].id.as_str();
        proof {
            lemma_seen_ids(eids, i as int, views(seen_edges@));
            lemma_first_of_each_bounds(eids, i as int);
            assert(eids[i as int] == id@);
        }
        let was_seen = contains_id(&seen_edges, id);
        proof {
            assert(was_seen == views(seen_edges@).contains(id@)) by {
                if was_seen {
                    let k = choose|k: int| 0 <= k < seen_edges@.len() && seen_edges@[k]@ == id@;
                    assert(views(seen_edges@)[k] == id@);
                }
                if views(seen_edges@).contains(id@) {
                    let k = choose|k: int| 0 <= k < seen_edges@.len() && views(seen_edges@)[k] == id@;
                    assert(seen_edges@[k]@ == id@);
                }
            }
        }
        if !was_seen {
            let ghost old_seen = views(seen_edges@);
            seen_edges.push(String::from_str(id));
            kept_edges.push(edges[i].duplicate());
            proof {
                assert(views(seen_edges@) =~= old_seen.push(id@));
                assert forall|x: Seq<char>| #[trigger] views(seen_edges@).contains(x) <==> exists|j: int|
                    0 <= j < i + 1 && eids[j] == x by {
                    if views(seen_edges@).contains(x) && x != id@ {
                        assert(old_seen.contains(x)) by {
                            let k = choose|k: int| 0 <= k < old_seen.len() + 1 && views(seen_edges@)[k] == x;
                            assert(old_seen[k] == x);
                        }
                    }
                    if exists|j: int| 0 <= j < i + 1 && eids[j] == x {
                        let j = choose|j: int| 0 <= j < i + 1 && eids[j] == x;
                        if j < i {
                            assert(old_seen.contains(x));
                            let k = choose|k: int| 0 <= k < old_seen.len() && old_seen[k] == x;
                            assert(views(seen_edges@)[k] == x);
                        } else {
                            assert(views(seen_edges@)[old_seen.len() as int] == x);
                        }
                    }
                }
            }
        } else {
            proof {
                assert forall|x: Seq<char>| #[trigger] views(seen_edges@).contains(x) <==> exists|j: int|
                    0 <= j < i + 1 && eids[j] == x by {
                    if exists|j: int| 0 <= j < i + 1 && eids[j] == x {
                        let j = choose|j: int| 0 <= j < i + 1 && eids[j] == x;
                        if j == i {
                            let j2 = choose|j2: int| 0 <= j2 < i && eids[j2] == eids[i as int];
                            assert(eids[j2] == x);
                        }
                    }
                }
            }
        }
        i = i + 1;
    }
    *edges = kept_edges;
}


// ---------------------------------------------------------------------------
// Receivers of method calls
// ---------------------------------------------------------------------------

/// A character that may continue an identifier.
pub open spec fn word_char(c: char) -> bool {
    spec_is_alphanumeric(c) || c == '_'
}

/// The identifier at the start of `s` (possibly empty).
pub open spec fn leading_word(s: Seq<char>) -> Seq<char>
    decreases s.len(),
{
    if s.len() > 0 && word_char(s[0]) { seq![s[0]] + leading_word(s.drop_first()) } else { Seq::empty() }
}

/// What stands before the first `::` of `s`, if it has one.
pub open spec fn before_path_separator(s: Seq<char>) -> Option<Seq<char>> {
    match first_occurrence_from(s, "::"@, 0) {
        Some(i) => Some(s.subrange(0, i)),
        None => None,
    }
}

/// The type a `let` binding of `qualifier` on this line gives it: the annotation after `:`,
/// or the path before `::` after `=`.
pub open spec fn spec_binding_owner(line: Seq<char>, qualifier: Seq<char>) -> Option<Seq<char>> {
    match strip_prefix(spec_trim(line), "let "@) {
        None => None,
        Some(b0) => {
            let b1 = match strip_prefix(b0, "mut "@) {
                Some(x) => x,
                None => b0,
            };
            match strip_prefix(spec_trim_start(b1), qualifier) {
                None => None,
                Some(r0) => if r0.len() > 0 && word_char(r0[0]) {
                    None
                } else {
                    let r = spec_trim_start(r0);
                    let candidate = if r.len() > 0 && r[0] == ':' {
                        Some(leading_word(spec_trim_start(r.drop_first())))
                    } else if r.len() > 0 && r[0] == '=' {
                        before_path_separator(spec_trim_start(r.drop_first()))
                    } else {
                        None
                    };
                    match candidate {
                        Some(o) => if o.len() > 0 { Some(o) } else { None },
                        None => None,
                    }
                },
            }
        },
    }
}

/// The owner inferred from the first `n` lines: the last binding that names one.
pub open spec fn inferred_owner(lines: Seq<Seq<char>>, n: int, qualifier: Seq<char>) -> Option<Seq<char>>
    decreases n,
{
    if n <= 0 {
        None
    } else {
        match spec_binding_owner(lines[n - 1], qualifier) {
            Some(o) => Some(o),
            None => inferred_owner(lines, n - 1, qualifier),
        }
    }
}

/// The receiver's type for a call `qualifier.method(..)` at `line`, read from the `let`
/// bindings above it; `self` and unqualified calls have none.
pub open spec fn spec_infer_receiver(source: Seq<char>, line: int, qualifier: Option<Seq<char>>) -> Option<Seq<char>> {
    match qualifier {
        None => None,
        Some(q) => if q == "self"@ {
            None
        } else {
            let lines = spec_lines(source);
            inferred_owner(lines, if line < lines.len() { line } else { lines.len() as int }, q)
        },
    }
}

fn leading_word_exec(s: &Vec<char>) -> (res: Vec<char>)
    ensures
        res@ == leading_word(s@),
{
    let mut k: usize = 0;
    proof {
        assert(s@.subrange(0, 0) =~= Seq::<char>::empty());
        assert(s@.subrange(0, s@.len() as int) =~= s@);
        assert(Seq::<char>::empty() + leading_word(s@) =~= leading_word(s@));
    }
    while k < s.len() && (is_alphanumeric(s[k]) || s[k] == '_')
        invariant
            k <= s@.len(),
            leading_word(s@) == s@.subrange(0, k as int) + leading_word(s@.subrange(k as int, s@.len() as int)),
        decreases s.len() - k,
    {
        let ghost rest = s@.subrange(k as int, s@.len() as int);
        proof {
            assert(rest.drop_first() =~= s@.subrange(k + 1, s@.len() as int));
            assert(s@.subrange(0, k + 1) =~= s@.subrange(0, k as int) + seq![s@[k as int]]);
        }
        k = k + 1;
    }
    proof {
        assert(s@.subrange(0, 0) =~= Seq::<char>::empty());
    }
    slice_chars(s, 0, k)
}

fn binding_owner(line: &Vec<char>, qualifier: &str) -> (res: Option<Vec<char>>)
    ensures
        match res {
            Some(o) => spec_binding_owner(line@, qualifier@) == Some(o@),
            None => spec_binding_owner(line@, qualifier@) is None,
        },
{
    let t = trim(line);
    let b0 = match strip_prefix_exec(&t, "let ") {
        Some(b) => b,
        None => {
            return None;
        },
    };
    let b1 = match strip_prefix_exec(&b0, "mut ") {
        Some(x) => x,
        None => b0,
    };
    let b = trim_start(&b1);
    let r0 = match strip_prefix_exec(&b, qualifier) {
        Some(r) => r,
        None => {
            return None;
        },
    };
    if r0.len() > 0 && (is_alphanumeric(r0[0]) || r0[0] == '_') {
        return None;
    }
    let r = trim_start(&r0);
    let n = r.len();
    let candidate: Option<Vec<char>> = if n > 0 && r[0] == ':' {
        let v = trim_start(&slice_chars(&r, 1, n));
        proof {
            assert(r@.subrange(1, n as int) =~= r@.drop_first());
        }
        Some(leading_word_exec(&v))
    } else if n > 0 && r[0] == '=' {
        let v = trim_start(&slice_chars(&r, 1, n));
        proof {
            assert(r@.subrange(1, n as int) =~= r@.drop_first());
        }
        match find_str(&v, &chars_of("::")) {
            Some(i) => Some(slice_chars(&v, 0, i)),
            None => None,
        }
    } else {
        None
    };
    match candidate {
        Some(o) => if o.len() > 0 { Some(o) } else { None },
        None => None,
    }
}

/// The type of the receiver of a qualified call, inferred from the `let` bindings of the
/// lines up to the call's line.
pub fn infer_receiver(source: &str, line: usize, qualifier: Option<&str>) -> (res: Option<String>)
    ensures
        match res {
            Some(o) => spec_infer_receiver(source@, line as int, match qualifier { Some(q) => Some(q@), None => None }) == Some(o@),
            None => spec_infer_receiver(source@, line as int, match qualifier { Some(q) => Some(q@), None => None }) is None,
        },
{
    let q = match qualifier {
        Some(q) => q,
        None => {
            return None;
        },
    };
    if str_equal(q, "self") {
        return None;
    }
    let lines = split_lines(&chars_of(source));
    let limit = if line < lines.len() { line } else { lines.len() };
    let mut inferred: Option<Vec<char>> = None;
    let mut k: usize = 0;
    while k < limit
        invariant
            k <= limit <= lines@.len(),
            lines@.map_values(|l: Vec<char>| l@) == spec_lines(source@),
            match inferred {
                Some(o) => inferred_owner(spec_lines(source@), k as int, q@) == Some(o@),
                None => inferred_owner(spec_lines(source@), k as int, q@) is None,
            },
        decreases limit - k,
    {
        proof {
            assert(lines@[k as int]@ == spec_lines(source@)[k as int]);
        }
        match binding_owner(&lines[k], q) {
            Some(o) => {
                inferred = Some(o);
            },
            None => {},
        }
        k = k + 1;
    }
    match inferred {
        Some(o) => Some(string_of(&o)),
        None => None,
    }
}


// ---------------------------------------------------------------------------
// Relative paths
// ---------------------------------------------------------------------------

/// The pieces of `s` between the separators `c` (empty pieces included).
pub open spec fn split_char(s: Seq<char>, c: char) -> Seq<Seq<char>>
    decreases s.len(),
{
    if s.len() == 0 {
        seq![Seq::empty()]
    } else {
        let prev = split_char(s.drop_last(), c);
        if s.last() == c {
            prev.push(Seq::empty())
        } else {
            prev.update(prev.len() - 1, prev.last().push(s.last()))
        }
    }
}

proof fn lemma_split_char_nonempty(s: Seq<char>, c: char)
    ensures
        split_char(s, c).len() >= 1,
    decreases s.len(),
{
    if s.len() > 0 {
        lemma_split_char_nonempty(s.drop_last(), c);
    }
}

/// Splits on a separator, keeping empty pieces.
fn split_on(s: &Vec<char>, c: char) -> (res: Vec<Vec<char>>)
    ensures
        res@.map_values(|p: Vec<char>| p@) == split_char(s@, c),
{
    let mut done: Vec<Vec<char>> = Vec::new();
    let mut current: Vec<char> = Vec::new();
    let mut i: usize = 0;
    while i < s.len()
        invariant
            i <= s@.len(),
            done@.map_values(|p: Vec<char>| p@).push(current@) == split_char(s@.subrange(0, i as int), c),
        decreases s.len() - i,
    {
        let ghost pre = s@.subrange(0, i + 1);
        proof {
            assert(pre.drop_last() =~= s@.subrange(0, i as int));
            lemma_split_char_nonempty(pre.drop_last(), c);
        }
        let ghost before = done@.map_values(|p: Vec<char>| p@).push(current@);
        if s[i] == c {
            let finished = current;
            done.push(finished);
            current = Vec::new();
            proof {
                assert(done@.map_values(|p: Vec<char>| p@).push(current@) =~= before.push(Seq::empty()));
            }
        } else {
            current.push(s[i]);
            proof {
                assert(done@.map_values(|p: Vec<char>| p@).push(current@) =~= before.update(
                    before.len() - 1,
                    before.last().push(s@[i as int]),
                ));
            }
        }
        i = i + 1;
    }
    proof {
        assert(s@.subrange(0, s@.len() as int) =~= s@);
    }
    done.push(current);
    done
}

/// One step of path normalization: `..` drops the last part, empty parts and `.` vanish.
pub open spec fn norm_step(acc: Seq<Seq<char>>, piece: Seq<char>) -> Seq<Seq<char>> {
    if piece.len() == 0 || piece == "."@ {
        acc
    } else if piece == ".."@ {
        if acc.len() > 0 { acc.drop_last() } else { acc }
    } else {
        acc.push(piece)
    }
}

/// The normalized parts of a path given by its pieces.
pub open spec fn norm_parts(pieces: Seq<Seq<char>>) -> Seq<Seq<char>>
    decreases pieces.len(),
{
    if pieces.len() == 0 { Seq::empty() } else { norm_step(norm_parts(pieces.drop_last()), pieces.last()) }
}

/// A path with `.`, empty parts and `..` resolved, parts joined by `/`, as the analyzer
/// compares paths.
pub open spec fn spec_normalize(pieces: Seq<Seq<char>>) -> Seq<char> {
    crate::text::spec_join(norm_parts(pieces), "/"@)
}

fn is_piece(p: &Vec<char>, s: &str) -> (res: bool)
    ensures
        res == (p@ == s@),
{
    let c = chars_of(s);
    if p.len() != c.len() {
        return false;
    }
    let r = crate::text::starts_with(p, &c);
    proof {
        if r {
            assert(p@ =~= p@.subrange(0, c@.len() as int));
        }
        if p@ == s@ {
            assert(p@.subrange(0, c@.len() as int) =~= c@);
        }
    }
    r
}

/// Normalizes the path made of `pieces`.
fn normalize(pieces: &Vec<Vec<char>>) -> (res: String)
    ensures
        res@ == spec_normalize(pieces@.map_values(|p: Vec<char>| p@)),
{
    let ghost views_of = pieces@.map_values(|p: Vec<char>| p@);
    let mut parts: Vec<Vec<char>> = Vec::new();
    let mut i: usize = 0;
    while i < pieces.len()
        invariant
            i <= pieces@.len(),
            views_of == pieces@.map_values(|p: Vec<char>| p@),
            parts@.map_values(|p: Vec<char>| p@) == norm_parts(views_of.subrange(0, i as int)),
        decreases pieces.len() - i,
    {
        let ghost pre = views_of.subrange(0, i + 1);
        proof {
            assert(pre.drop_last() =~= views_of.subrange(0, i as int));
        }
        let ghost before = parts@.map_values(|p: Vec<char>| p@);
        let piece = &pieces[i];
        if piece.len() == 0 || is_piece(piece, ".") {
        } else if is_piece(piece, "..") {
            if parts.len() > 0 {
                parts.pop();
                proof {
                    assert(parts@.map_values(|p: Vec<char>| p@) =~= before.drop_last());
                }
            }
        } else {
            parts.push(slice_chars(piece, 0, piece.len()));
            proof {
                assert(piece@.subrange(0, piece@.len() as int) =~= piece@);
                assert(parts@.map_values(|p: Vec<char>| p@) =~= before.push(piece@));
            }
        }
        i = i + 1;
    }
    proof {
        assert(views_of.subrange(0, pieces@.len() as int) =~= views_of);
    }
    let joined = crate::text::join_chars(&parts, parts.len(), &chars_of("/"));
    proof {
        assert(parts@.subrange(0, parts@.len() as int) =~= parts@);
    }
    string_of(&joined)
}


/// The pieces that name something: not empty, not `.`.
pub open spec fn path_components(pieces: Seq<Seq<char>>) -> Seq<Seq<char>>
    decreases pieces.len(),
{
    if pieces.len() == 0 {
        Seq::empty()
    } else if pieces.last().len() == 0 || pieces.last() == "."@ {
        path_components(pieces.drop_last())
    } else {
        path_components(pieces.drop_last()).push(pieces.last())
    }
}

/// The directory of a file path, as its components.
pub open spec fn parent_pieces(source: Seq<char>) -> Seq<Seq<char>> {
    let c = path_components(split_char(source, '/'));
    if c.len() > 0 { c.drop_last() } else { Seq::empty() }
}

/// Where an import points before any extension is tried: relative imports from the
/// importing file's directory, `package:` imports under `lib/`; other imports are not
/// resolved.
pub open spec fn import_base(source: Seq<char>, import: Seq<char>) -> Option<Seq<Seq<char>>> {
    if import.len() > 0 && import[0] == '.' {
        Some(parent_pieces(source) + split_char(import, '/'))
    } else if crate::text::seq_starts_with(import, "package:"@) {
        let x = match crate::text::index_of(import, '/') {
            Some(i) => import.subrange(i + 1, import.len() as int),
            None => import,
        };
        Some(if x.len() > 0 && x[0] == '/' { split_char(x, '/') } else { seq!["lib"@] + split_char(x, '/') })
    } else {
        None
    }
}

/// The pieces with `ext` appended to the last one.
pub open spec fn with_ext(pieces: Seq<Seq<char>>, ext: Seq<char>) -> Seq<Seq<char>> {
    pieces.update(pieces.len() - 1, pieces.last() + ext)
}

/// The extensions tried, in order.
pub open spec fn import_extensions() -> Seq<Seq<char>> {
    seq![""@, ".ts"@, ".tsx"@, ".js"@, ".jsx"@, ".mjs"@, ".cjs"@, ".py"@, ".php"@, ".dart"@, ".go"@]
}

/// The index files tried, in order, when the import names a directory.
pub open spec fn index_files() -> Seq<Seq<char>> {
    seq!["index.ts"@, "index.tsx"@, "index.js"@, "index.jsx"@, "__init__.py"@]
}

/// Some string of `v` is `c`.
pub open spec fn listed(v: Seq<String>, c: Seq<char>) -> bool {
    exists|k: int| 0 <= k < v.len() && (#[trigger] v[k])@ == c
}

/// The first extension, from the `k`-th on, that gives a known file present on disk.
pub open spec fn first_with_extension(base: Seq<Seq<char>>, k: int, known: Seq<String>, on_disk: Seq<String>) -> Option<Seq<char>>
    decreases import_extensions().len() - k,
{
    if k < 0 || k >= import_extensions().len() {
        None
    } else {
        let c = spec_normalize(with_ext(base, import_extensions()[k]));
        if listed(known, c) && listed(on_disk, c) { Some(c) } else { first_with_extension(base, k + 1, known, on_disk) }
    }
}

/// The first index file, from the `k`-th on, that is known.
pub open spec fn first_index_file(base: Seq<Seq<char>>, k: int, known: Seq<String>) -> Option<Seq<char>>
    decreases index_files().len() - k,
{
    if k < 0 || k >= index_files().len() {
        None
    } else {
        let c = spec_normalize(base.push(index_files()[k]));
        if listed(known, c) { Some(c) } else { first_index_file(base, k + 1, known) }
    }
}

/// The file an import resolves to, among the known files.
pub open spec fn spec_resolve_import_path(source: Seq<char>, import: Seq<char>, known: Seq<String>, on_disk: Seq<String>) -> Option<Seq<char>> {
    match import_base(source, import) {
        None => None,
        Some(base) => match first_with_extension(base, 0, known, on_disk) {
            Some(c) => Some(c),
            None => first_index_file(base, 0, known),
        },
    }
}

fn is_listed(v: &Vec<String>, c: &str) -> (res: bool)
    ensures
        res == listed(v@, c@),
{
    let mut k: usize = 0;
    while k < v.len()
        invariant
            k <= v@.len(),
            forall|j: int| 0 <= j < k ==> v@[j]@ != c@,
        decreases v.len() - k,
    {
        if str_equal(v[k].as_str(), c) {
            return true;
        }
        k = k + 1;
    }
    false
}

fn components_of(pieces: &Vec<Vec<char>>) -> (res: Vec<Vec<char>>)
    ensures
        res@.map_values(|p: Vec<char>| p@) == path_components(pieces@.map_values(|p: Vec<char>| p@)),
{
    let ghost all = pieces@.map_values(|p: Vec<char>| p@);
    let mut out: Vec<Vec<char>> = Vec::new();
    let mut i: usize = 0;
    while i < pieces.len()
        invariant
            i <= pieces@.len(),
            all == pieces@.map_values(|p: Vec<char>| p@),
            out@.map_values(|p: Vec<char>| p@) == path_components(all.subrange(0, i as int)),
        decreases pieces.len() - i,
    {
        let ghost pre = all.subrange(0, i + 1);
        proof {
            assert(pre.drop_last() =~= all.subrange(0, i as int));
        }
        let ghost before = out@.map_values(|p: Vec<char>| p@);
        if pieces[i].len() > 0 && !is_piece(&pieces[i], ".") {
            out.push(slice_chars(&pieces[i], 0, pieces[i].len()));
            proof {
                assert(pieces@[i as int]@.subrange(0, pieces@[i as int]@.len() as int) =~= pieces@[i as int]@);
                assert(out@.map_values(|p: Vec<char>| p@) =~= before.push(all[i as int]));
            }
        }
        i = i + 1;
    }
    proof {
        assert(all.subrange(0, pieces@.len() as int) =~= all);
    }
    out
}

/// The pieces of a path view by view.
pub open spec fn piece_views(v: Seq<Vec<char>>) -> Seq<Seq<char>> {
    v.map_values(|p: Vec<char>| p@)
}

/// A copy of the first `n` pieces.
fn copy_prefix(v: &Vec<Vec<char>>, n: usize) -> (res: Vec<Vec<char>>)
    requires
        n <= v@.len(),
    ensures
        piece_views(res@) == piece_views(v@).subrange(0, n as int),
{
    let mut out: Vec<Vec<char>> = Vec::new();
    let mut k: usize = 0;
    while k < n
        invariant
            k <= n <= v@.len(),
            piece_views(out@) == piece_views(v@).subrange(0, k as int),
        decreases n - k,
    {
        let ghost before = piece_views(out@);
        let piece = slice_chars(&v[k], 0, v[k].len());
        proof {
            assert(v@[k as int]@.subrange(0, v@[k as int]@.len() as int) =~= v@[k as int]@);
        }
        out.push(piece);
        proof {
            assert(piece_views(out@) =~= before.push(v@[k as int]@));
            assert(piece_views(v@).subrange(0, k + 1) =~= piece_views(v@).subrange(0, k as int).push(v@[k as int]@));
        }
        k = k + 1;
    }
    out
}

fn import_base_exec(source: &str, import: &str) -> (res: Option<Vec<Vec<char>>>)
    ensures
        match res {
            Some(b) => import_base(source@, import@) == Some(b@.map_values(|p: Vec<char>| p@)) && b@.len() > 0,
            None => import_base(source@, import@) is None,
        },
{
    let imp = chars_of(import);
    let n = imp.len();
    if n > 0 && imp[0] == '.' {
        let pieces = split_on(&chars_of(source), '/');
        let comps = components_of(&pieces);
        let keep = if comps.len() > 0 { comps.len() - 1 } else { 0 };
        let mut out = copy_prefix(&comps, keep);
        let ghost parent = out@.map_values(|p: Vec<char>| p@);
        proof {
            let c = comps@.map_values(|p: Vec<char>| p@);
            if c.len() > 0 {
                assert(c.subrange(0, keep as int) =~= c.drop_last());
            } else {
                assert(c.subrange(0, 0) =~= Seq::<Seq<char>>::empty());
            }
            assert(parent == parent_pieces(source@));
        }
        let mut rest = split_on(&imp, '/');
        let ghost tail = rest@.map_values(|p: Vec<char>| p@);
        proof {
            lemma_split_char_nonempty(imp@, '/');
        }
        out.append(&mut rest);
        proof {
            assert(out@.map_values(|p: Vec<char>| p@) =~= parent + tail);
        }
        return Some(out);
    }
    if crate::text::starts_with(&imp, &chars_of("package:")) {
        let x = match crate::text::find_char(&imp, '/') {
            Some(i) => {
                proof {
                    crate::text::lemma_index_of_from_bounds(imp@, '/', 0);
                    assert(crate::text::index_of_from(imp@, '/', 0) == Some(i as int));
                }
                slice_chars(&imp, i + 1, n)
            },
            None => imp,
        };
        let pieces = split_on(&x, '/');
        proof {
            lemma_split_char_nonempty(x@, '/');
        }
        if x.len() > 0 && x[0] == '/' {
            return Some(pieces);
        }
        let mut out: Vec<Vec<char>> = Vec::new();
        out.push(chars_of("lib"));
        let mut rest = pieces;
        out.append(&mut rest);
        proof {
            assert(out@.map_values(|p: Vec<char>| p@) =~= seq!["lib"@] + split_char(x@, '/'));
        }
        return Some(out);
    }
    None
}

fn with_extension(base: &Vec<Vec<char>>, ext: &str) -> (res: Vec<Vec<char>>)
    requires
        base@.len() > 0,
    ensures
        res@.map_values(|p: Vec<char>| p@) == with_ext(base@.map_values(|p: Vec<char>| p@), ext@),
{
    let last = base.len() - 1;
    let mut out = copy_prefix(base, last);
    let ghost before = piece_views(out@);
    let mut final_piece = slice_chars(&base[last], 0, base[last].len());
    crate::text::append_chars(&mut final_piece, &chars_of(ext));
    proof {
        assert(base@[last as int]@.subrange(0, base@[last as int]@.len() as int) =~= base@[last as int]@);
    }
    out.push(final_piece);
    proof {
        assert(piece_views(out@) =~= before.push(base@[last as int]@ + ext@));
        assert(out@.map_values(|p: Vec<char>| p@) =~= with_ext(base@.map_values(|p: Vec<char>| p@), ext@));
    }
    out
}

/// The known file an import points to. `known` lists the paths of the project's files;
/// `on_disk` the ones that exist as regular files under the root.
pub fn resolve_import_path(source: &str, import: &str, known: &Vec<String>, on_disk: &Vec<String>) -> (res: Option<String>)
    ensures
        match res {
            Some(p) => spec_resolve_import_path(source@, import@, known@, on_disk@) == Some(p@),
            None => spec_resolve_import_path(source@, import@, known@, on_disk@) is None,
        },
{
    let base = match import_base_exec(source, import) {
        Some(b) => b,
        None => {
            return None;
        },
    };
    let ghost b = base@.map_values(|p: Vec<char>| p@);
    let extensions: Vec<&str> = vec!["", ".ts", ".tsx", ".js", ".jsx", ".mjs", ".cjs", ".py", ".php", ".dart", ".go"];
    let mut k: usize = 0;
    while k < extensions.len()
        invariant
            k <= extensions@.len(),
            extensions@.len() == import_extensions().len(),
            forall|j: int| 0 <= j < extensions@.len() ==> (#[trigger] extensions@[j])@ == import_extensions()[j],
            base@.len() > 0,
            b == base@.map_values(|p: Vec<char>| p@),
            import_base(source@, import@) == Some(b),
            first_with_extension(b, 0, known@, on_disk@) == first_with_extension(b, k as int, known@, on_disk@),
        decreases extensions.len() - k,
    {
        let candidate = normalize(&with_extension(&base, extensions[k]));
        proof {
            assert(extensions@[k as int]@ == import_extensions()[k as int]);
        }
        if is_listed(known, candidate.as_str()) && is_listed(on_disk, candidate.as_str()) {
            proof {
                assert(first_with_extension(b, k as int, known@, on_disk@) == Some(candidate@));
            }
            return Some(candidate);
        }
        k = k + 1;
    }
    let names: Vec<&str> = vec!["index.ts", "index.tsx", "index.js", "index.jsx", "__init__.py"];
    let mut k: usize = 0;
    while k < names.len()
        invariant
            k <= names@.len(),
            names@.len() == index_files().len(),
            forall|j: int| 0 <= j < names@.len() ==> (#[trigger] names@[j])@ == index_files()[j],
            b == base@.map_values(|p: Vec<char>| p@),
            import_base(source@, import@) == Some(b),
            first_with_extension(b, 0, known@, on_disk@) is None,
            first_index_file(b, 0, known@) == first_index_file(b, k as int, known@),
        decreases names.len() - k,
    {
        let mut pieces = copy_prefix(&base, base.len());
        proof {
            assert(piece_views(base@).subrange(0, base@.len() as int) =~= piece_views(base@));
        }
        let ghost before = piece_views(pieces@);
        pieces.push(chars_of(names[k]));
        proof {
            assert(names@[k as int]@ == index_files()[k as int]);
            assert(piece_views(pieces@) =~= before.push(names@[k as int]@));
            assert(pieces@.map_values(|p: Vec<char>| p@) =~= b.push(index_files()[k as int]));
        }
        let candidate = normalize(&pieces);
        if is_listed(known, candidate.as_str()) {
            proof {
                assert(first_index_file(b, k as int, known@) == Some(candidate@));
            }
            return Some(candidate);
        }
        k = k + 1;
    }
    None
}


/// The paths of the nodes that have one, in order.
pub open spec fn known_paths(nodes: Seq<CodeNode>) -> Seq<String>
    decreases nodes.len(),
{
    if nodes.len() == 0 {
        Seq::empty()
    } else {
        match nodes.last().path {
            Some(p) => known_paths(nodes.drop_last()).push(p),
            None => known_paths(nodes.drop_last()),
        }
    }
}

/// The id of the last node with the given path: a path maps to one file node.
pub open spec fn id_for_path(nodes: Seq<CodeNode>, path: Seq<char>) -> Option<Seq<char>>
    decreases nodes.len(),
{
    if nodes.len() == 0 {
        None
    } else if nodes.last().path matches Some(p) && p@ == path {
        Some(nodes.last().id@)
    } else {
        id_for_path(nodes.drop_last(), path)
    }
}

/// The (source, target) ids of the import edges of the first `n` imports.
pub open spec fn import_links(files: Seq<CodeNode>, imports: Seq<ImportReference>, on_disk: Seq<String>, n: int) -> Seq<(Seq<char>, Seq<char>)>
    decreases n,
{
    if n <= 0 {
        Seq::empty()
    } else {
        let prev = import_links(files, imports, on_disk, n - 1);
        let i = imports[n - 1];
        match id_for_path(files, i.source_path@) {
            None => prev,
            Some(source) => match spec_resolve_import_path(i.source_path@, i.full_path@, known_paths(files), on_disk) {
                None => prev,
                Some(path) => match id_for_path(files, path) {
                    None => prev,
                    Some(target) => prev.push((source, target)),
                },
            },
        }
    }
}

fn paths_of(nodes: &Vec<CodeNode>) -> (res: Vec<String>)
    ensures
        res@ == known_paths(nodes@),
{
    let mut out: Vec<String> = Vec::new();
    let mut i: usize = 0;
    while i < nodes.len()
        invariant
            i <= nodes@.len(),
            out@ == known_paths(nodes@.subrange(0, i as int)),
        decreases nodes.len() - i,
    {
        proof {
            assert(nodes@.subrange(0, i + 1).drop_last() =~= nodes@.subrange(0, i as int));
        }
        match &nodes[i].path {
            Some(p) => {
                out.push(p.clone());
            },
            None => {},
        }
        i = i + 1;
    }
    proof {
        assert(nodes@.subrange(0, nodes@.len() as int) =~= nodes@);
    }
    out
}

fn find_id_for_path(nodes: &Vec<CodeNode>, path: &str) -> (res: Option<String>)
    ensures
        match res {
            Some(id) => id_for_path(nodes@, path@) == Some(id@),
            None => id_for_path(nodes@, path@) is None,
        },
{
    let mut found: Option<String> = None;
    let mut i: usize = 0;
    while i < nodes.len()
        invariant
            i <= nodes@.len(),
            match found {
                Some(id) => id_for_path(nodes@.subrange(0, i as int), path@) == Some(id@),
                None => id_for_path(nodes@.subrange(0, i as int), path@) is None,
            },
        decreases nodes.len() - i,
    {
        proof {
            assert(nodes@.subrange(0, i + 1).drop_last() =~= nodes@.subrange(0, i as int));
        }
        match &nodes[i].path {
            Some(p) => {
                if str_equal(p.as_str(), path) {
                    found = Some(nodes[i].id.clone());
                }
            },
            None => {},
        }
        i = i + 1;
    }
    proof {
        assert(nodes@.subrange(0, nodes@.len() as int) =~= nodes@);
    }
    found
}

/// Import edges between files: for each import whose file is known and whose target
/// resolves to a known file present on disk, an edge from the importing file to it.
pub fn resolve_import_edges(file_nodes: &Vec<CodeNode>, imports: &Vec<ImportReference>, on_disk: &Vec<String>) -> (res: Vec<CodeEdge>)
    ensures
        res@.map_values(|e: CodeEdge| (e.source_id@, e.target_id@)) == import_links(file_nodes@, imports@, on_disk@, imports@.len() as int),
        forall|k: int| 0 <= k < res@.len() ==> (#[trigger] res@[k]).relation == RelationKind::Imports
            && res@[k].id@ == CodeEdge::spec_id(res@[k].source_id@, res@[k].target_id@, RelationKind::Imports),
{
    let known = paths_of(file_nodes);
    let mut out: Vec<CodeEdge> = Vec::new();
    let mut i: usize = 0;
    while i < imports.len()
        invariant
            i <= imports@.len(),
            known@ == known_paths(file_nodes@),
            out@.map_values(|e: CodeEdge| (e.source_id@, e.target_id@)) == import_links(file_nodes@, imports@, on_disk@, i as int),
            forall|k: int| 0 <= k < out@.len() ==> (#[trigger] out@[k]).relation == RelationKind::Imports
                && out@[k].id@ == CodeEdge::spec_id(out@[k].source_id@, out@[k].target_id@, RelationKind::Imports),
        decreases imports.len() - i,
    {
        let import = &imports[i];
        let ghost before = out@.map_values(|e: CodeEdge| (e.source_id@, e.target_id@));
        match find_id_for_path(file_nodes, import.source_path.as_str()) {
            None => {},
            Some(source) => match resolve_import_path(import.source_path.as_str(), import.full_path.as_str(), &known, on_disk) {
                None => {},
                Some(path) => match find_id_for_path(file_nodes, path.as_str()) {
                    None => {},
                    Some(target) => {
                        let edge = CodeEdge::new(source, target, RelationKind::Imports);
                        out.push(edge);
                        proof {
                            assert(out@.map_values(|e: CodeEdge| (e.source_id@, e.target_id@)) =~= before.push(
                                (out@[out@.len() - 1].source_id@, out@[out@.len() - 1].target_id@),
                            ));
                        }
                    },
                },
            },
        }
        i = i + 1;
    }
    out
}


// ---------------------------------------------------------------------------
// Calls resolved by name
// ---------------------------------------------------------------------------

/// Nodes a call can land on.
pub open spec fn callable(n: CodeNode) -> bool {
    n.kind == NodeKind::Function || n.kind == NodeKind::Method || n.kind == NodeKind::Constructor
        || n.kind == NodeKind::Component
}

/// A callable node with the name, in the file `path` and with the owner `owner` when given.
pub open spec fn call_candidate(n: CodeNode, name: Seq<char>, path: Option<Seq<char>>, owner: Option<Seq<char>>) -> bool {
    &&& callable(n)
    &&& n.name@ == name
    &&& match path {
        Some(p) => match n.path {
            Some(np) => np@ == p,
            None => false,
        },
        None => true,
    }
    &&& match owner {
        Some(o) => match n.owner {
            Some(no) => no@ == o,
            None => false,
        },
        None => true,
    }
}

/// Number of candidates among the first `k` nodes.
pub open spec fn candidate_count(nodes: Seq<CodeNode>, k: int, name: Seq<char>, path: Option<Seq<char>>, owner: Option<Seq<char>>) -> nat
    decreases k,
{
    if k <= 0 {
        0
    } else {
        candidate_count(nodes, k - 1, name, path, owner) + if call_candidate(nodes[k - 1], name, path, owner) { 1nat } else { 0nat }
    }
}

/// The position of the last candidate among the first `k` nodes.
pub open spec fn last_candidate(nodes: Seq<CodeNode>, k: int, name: Seq<char>, path: Option<Seq<char>>, owner: Option<Seq<char>>) -> Option<int>
    decreases k,
{
    if k <= 0 {
        None
    } else if call_candidate(nodes[k - 1], name, path, owner) {
        Some(k - 1)
    } else {
        last_candidate(nodes, k - 1, name, path, owner)
    }
}

/// The candidate when there is exactly one.
pub open spec fn unique_candidate(nodes: Seq<CodeNode>, name: Seq<char>, path: Option<Seq<char>>, owner: Option<Seq<char>>) -> Option<int> {
    if candidate_count(nodes, nodes.len() as int, name, path, owner) == 1 {
        last_candidate(nodes, nodes.len() as int, name, path, owner)
    } else {
        None
    }
}

/// The text of the first source entry for `path`, empty when there is none.
pub open spec fn text_for(sources: Seq<crate::findings::SourceText>, path: Seq<char>) -> Seq<char>
    decreases sources.len(),
{
    if sources.len() == 0 {
        Seq::empty()
    } else if sources[0].path@ == path {
        sources[0].text@
    } else {
        text_for(sources.drop_first(), path)
    }
}

/// Where a call lands: the only candidate in the caller's file; else the only candidate
/// owned by the receiver's inferred type; else the only candidate of the project.
pub open spec fn spec_call_target(nodes: Seq<CodeNode>, call: CallReference, sources: Seq<crate::findings::SourceText>) -> Option<int> {
    match unique_candidate(nodes, call.target_name@, Some(call.path@), None) {
        Some(i) => Some(i),
        None => {
            let qualifier = match call.qualifier { Some(q) => Some(q@), None => None };
            let by_owner = match spec_infer_receiver(text_for(sources, call.path@), call.line as int, qualifier) {
                Some(o) => unique_candidate(nodes, call.target_name@, None, Some(o)),
                None => None,
            };
            match by_owner {
                Some(i) => Some(i),
                None => unique_candidate(nodes, call.target_name@, None, None),
            }
        },
    }
}

/// An unqualified call whose name designates no single callable in the caller's file nor in
/// the project stays unresolved: no guess among several candidates.
pub proof fn law_ambiguous_unqualified_call_stays_unresolved(nodes: Seq<CodeNode>, call: CallReference, sources: Seq<crate::findings::SourceText>)
    requires
        call.qualifier is None,
        candidate_count(nodes, nodes.len() as int, call.target_name@, Some(call.path@), None) != 1,
        candidate_count(nodes, nodes.len() as int, call.target_name@, None, None) != 1,
    ensures
        spec_call_target(nodes, call, sources) is None,
{
}

/// The calls of the first `n` that remain unresolved, in order.
pub open spec fn still_unresolved(nodes: Seq<CodeNode>, calls: Seq<CallReference>, sources: Seq<crate::findings::SourceText>, n: int) -> Seq<CallReference>
    decreases n,
{
    if n <= 0 {
        Seq::empty()
    } else if spec_call_target(nodes, calls[n - 1], sources) is None {
        still_unresolved(nodes, calls, sources, n - 1).push(calls[n - 1])
    } else {
        still_unresolved(nodes, calls, sources, n - 1)
    }
}

/// The (caller, callee) ids of the calls of the first `n` that resolve, in order.
pub open spec fn resolved_links(nodes: Seq<CodeNode>, calls: Seq<CallReference>, sources: Seq<crate::findings::SourceText>, n: int) -> Seq<(Seq<char>, Seq<char>)>
    decreases n,
{
    if n <= 0 {
        Seq::empty()
    } else {
        match spec_call_target(nodes, calls[n - 1], sources) {
            Some(t) => resolved_links(nodes, calls, sources, n - 1).push((calls[n - 1].caller_id@, nodes[t].id@)),
            None => resolved_links(nodes, calls, sources, n - 1),
        }
    }
}

fn opt_matches(value: &Option<String>, wanted: Option<&str>) -> (res: bool)
    ensures
        res == (match wanted { Some(w) => value matches Some(v) && v@ == w@, None => true }),
{
    match wanted {
        None => true,
        Some(w) => match value {
            Some(v) => str_equal(v.as_str(), w),
            None => false,
        },
    }
}

fn unique_candidate_exec(nodes: &Vec<CodeNode>, name: &str, path: Option<&str>, owner: Option<&str>) -> (res: Option<usize>)
    ensures
        match res {
            Some(i) => unique_candidate(nodes@, name@, match path { Some(p) => Some(p@), None => None },
                match owner { Some(o) => Some(o@), None => None }) == Some(i as int) && i < nodes@.len(),
            None => unique_candidate(nodes@, name@, match path { Some(p) => Some(p@), None => None },
                match owner { Some(o) => Some(o@), None => None }) is None,
        },
{
    let ghost sp = match path { Some(p) => Some(p@), None => None::<Seq<char>> };
    let ghost so = match owner { Some(o) => Some(o@), None => None::<Seq<char>> };
    let mut count: usize = 0;
    let mut last: Option<usize> = None;
    let mut i: usize = 0;
    while i < nodes.len()
        invariant
            i <= nodes@.len(),
            sp == match path { Some(p) => Some(p@), None => None::<Seq<char>> },
            so == match owner { Some(o) => Some(o@), None => None::<Seq<char>> },
            count == candidate_count(nodes@, i as int, name@, sp, so),
            count <= i,
            match last {
                Some(l) => last_candidate(nodes@, i as int, name@, sp, so) == Some(l as int) && l < i,
                None => last_candidate(nodes@, i as int, name@, sp, so) is None,
            },
        decreases nodes.len() - i,
    {
        let n = &nodes[i];
        let kind_ok = n.kind == NodeKind::Function || n.kind == NodeKind::Method || n.kind == NodeKind::Constructor
            || n.kind == NodeKind::Component;
        let hit = kind_ok && str_equal(n.name.as_str(), name) && opt_matches(&n.path, path) && opt_matches(&n.owner, owner);
        proof {
            assert(hit == call_candidate(nodes@[i as int], name@, sp, so));
        }
        if hit {
            count = count + 1;
            last = Some(i);
        }
        i = i + 1;
    }
    if count == 1 {
        last
    } else {
        None
    }
}

fn text_for_exec(sources: &Vec<crate::findings::SourceText>, path: &str) -> (res: String)
    ensures
        res@ == text_for(sources@, path@),
{
    let mut i: usize = 0;
    proof {
        assert(sources@.subrange(0, sources@.len() as int) =~= sources@);
    }
    while i < sources.len()
        invariant
            i <= sources@.len(),
            text_for(sources@, path@) == text_for(sources@.subrange(i as int, sources@.len() as int), path@),
        decreases sources.len() - i,
    {
        proof {
            assert(sources@.subrange(i as int, sources@.len() as int).drop_first() =~= sources@.subrange(i + 1, sources@.len() as int));
        }
        if str_equal(sources[i].path.as_str(), path) {
            return sources[i].text.clone();
        }
        i = i + 1;
    }
    String::new()
}

fn call_target(nodes: &Vec<CodeNode>, call: &CallReference, sources: &Vec<crate::findings::SourceText>) -> (res: Option<usize>)
    ensures
        match res {
            Some(i) => spec_call_target(nodes@, *call, sources@) == Some(i as int) && i < nodes@.len(),
            None => spec_call_target(nodes@, *call, sources@) is None,
        },
{
    match unique_candidate_exec(nodes, call.target_name.as_str(), Some(call.path.as_str()), None) {
        Some(i) => {
            return Some(i);
        },
        None => {},
    }
    let text = text_for_exec(sources, call.path.as_str());
    let qualifier: Option<&str> = match &call.qualifier {
        Some(q) => Some(q.as_str()),
        None => None,
    };
    let by_owner = match infer_receiver(text.as_str(), call.line, qualifier) {
        Some(o) => unique_candidate_exec(nodes, call.target_name.as_str(), None, Some(o.as_str())),
        None => None,
    };
    match by_owner {
        Some(i) => Some(i),
        None => unique_candidate_exec(nodes, call.target_name.as_str(), None, None),
    }
}

/// Resolves, by name, the calls that the language resolvers left open: each call that
/// lands on exactly one candidate (see `spec_call_target`) becomes a `CALLS` edge appended
/// to `edges`; the others stay in `unresolved`, in order. `sources` holds the project's
/// files by path, read for receiver inference.
pub fn resolve_generic_calls(
    nodes: &Vec<CodeNode>,
    edges: &mut Vec<CodeEdge>,
    unresolved: &mut Vec<CallReference>,
    sources: &Vec<crate::findings::SourceText>,
)
    ensures
        final(edges)@.subrange(0, old(edges)@.len() as int) == old(edges)@,
        final(edges)@.subrange(old(edges)@.len() as int, final(edges)@.len() as int).map_values(
            |e: CodeEdge| (e.source_id@, e.target_id@),
        ) == resolved_links(nodes@, old(unresolved)@, sources@, old(unresolved)@.len() as int),
        forall|k: int| old(edges)@.len() <= k < final(edges)@.len() ==> (#[trigger] final(edges)@[k]).relation
            == RelationKind::Calls,
        final(unresolved)@ == still_unresolved(nodes@, old(unresolved)@, sources@, old(unresolved)@.len() as int),
{
    let ghost start = edges@;
    let ghost calls = unresolved@;
    let mut remaining: Vec<CallReference> = Vec::new();
    let mut i: usize = 0;
    while i < unresolved.len()
        invariant
            i <= calls.len(),
            unresolved@ == calls,
            edges@.subrange(0, start.len() as int) == start,
            edges@.len() >= start.len(),
            edges@.subrange(start.len() as int, edges@.len() as int).map_values(|e: CodeEdge| (e.source_id@, e.target_id@))
                == resolved_links(nodes@, calls, sources@, i as int),
            forall|k: int| start.len() <= k < edges@.len() ==> (#[trigger] edges@[k]).relation == RelationKind::Calls,
            remaining@ == still_unresolved(nodes@, calls, sources@, i as int),
        decreases unresolved.len() - i,
    {
        let call = &unresolved[i];
        let ghost before = edges@;
        match call_target(nodes, call, sources) {
            Some(t) => {
                let edge = CodeEdge::new(call.caller_id.clone(), nodes[t].id.clone(), RelationKind::Calls);
                edges.push(edge);
                proof {
                    assert(edges@.subrange(0, start.len() as int) =~= before.subrange(0, start.len() as int));
                    assert(edges@.subrange(start.len() as int, edges@.len() as int) =~= before.subrange(
                        start.len() as int,
                        before.len() as int,
                    ).push(edges@[edges@.len() - 1]));
                    assert(edges@.subrange(start.len() as int, edges@.len() as int).map_values(
                        |e: CodeEdge| (e.source_id@, e.target_id@),
                    ) =~= before.subrange(start.len() as int, before.len() as int).map_values(
                        |e: CodeEdge| (e.source_id@, e.target_id@),
                    ).push((calls[i as int].caller_id@, nodes@[t as int].id@)));
                }
            },
            None => {
                remaining.push(call.clone_call());
            },
        }
        i = i + 1;
    }
    *unresolved = remaining;
}

impl CallReference {
    /// A field-by-field copy of the call.
    pub fn clone_call(&self) -> (res: CallReference)
        ensures
            res == *self,
    {
        CallReference {
            caller_id: self.caller_id.clone(),
            path: self.path.clone(),
            target_name: self.target_name.clone(),
            qualifier: crate::model::copy_opt_string(&self.qualifier),
            line: self.line,
        }
    }
}

// ---------------------------------------------------------------------------
// The analysis pipeline's own decisions
// ---------------------------------------------------------------------------

/// How many files pass between two progress reports: a 250th of them, at least one.
pub open spec fn spec_progress_interval(total: usize) -> int {
    if total / 250 >= 1 { (total / 250) as int } else { 1 }
}

/// The number of files between two progress reports.
pub fn progress_interval(total: usize) -> (res: usize)
    ensures
        res == spec_progress_interval(total),
        res >= 1,
{
    if total / 250 >= 1 { total / 250 } else { 1 }
}

/// Parsing reports its progress after the last file and every interval.
pub fn parse_progress_due(processed: usize, total: usize) -> (res: bool)
    ensures
        res == (processed == total || processed as int % spec_progress_interval(total) == 0),
{
    let interval = progress_interval(total);
    processed == total || processed % interval == 0
}

/// Scanning reports its progress after the last file, and once an interval has passed
/// since the last report.
pub fn scan_progress_due(processed: usize, total: usize, last: usize) -> (res: bool)
    ensures
        res == (processed == total || (if processed >= last { processed - last } else { 0 }) >= spec_progress_interval(total)),
{
    let interval = progress_interval(total);
    processed == total || (if processed >= last { processed - last } else { 0 }) >= interval
}

/// The hash recorded for a path in an earlier scan: that of its last record, if any.
pub open spec fn recorded_hash(previous: Seq<ProjectFile>, path: Seq<char>) -> Option<Seq<char>>
    decreases previous.len(),
{
    if previous.len() == 0 {
        None
    } else if previous.last().path@ == path {
        Some(previous.last().hash@)
    } else {
        recorded_hash(previous.drop_last(), path)
    }
}

/// For each file of the scan, whether an earlier analysis of the same content can be
/// reused: the earlier scan recorded the file's path with the same hash.
pub fn unchanged_files(previous: &Vec<ProjectFile>, files: &Vec<ProjectFile>) -> (res: Vec<bool>)
    ensures
        res@.len() == files@.len(),
        forall|k: int| 0 <= k < files@.len() ==> #[trigger] res@[k] == (recorded_hash(previous@, files@[k].path@) == Some(files@[k].hash@)),
{
    let mut out: Vec<bool> = Vec::new();
    let mut k: usize = 0;
    while k < files.len()
        invariant
            k <= files@.len(),
            out@.len() == k,
            forall|q: int| 0 <= q < k ==> #[trigger] out@[q] == (recorded_hash(previous@, files@[q].path@) == Some(files@[q].hash@)),
        decreases files.len() - k,
    {
        let path = files[k].path.as_str();
        let mut found: Option<usize> = None;
        let mut i: usize = previous.len();
        assert(previous@.subrange(0, i as int) =~= previous@);
        while i > 0 && found.is_none()
            invariant
                i <= previous@.len(),
                match found {
                    Some(j) => j < previous@.len() && recorded_hash(previous@, path@) == Some(previous@[j as int].hash@),
                    None => recorded_hash(previous@, path@) == recorded_hash(previous@.subrange(0, i as int), path@),
                },
            decreases i,
        {
            let ghost pre = previous@.subrange(0, i as int);
            proof {
                assert(pre.drop_last() =~= previous@.subrange(0, i - 1));
                assert(pre.last() == previous@[i - 1]);
            }
            if str_equal(previous[i - 1].path.as_str(), path) {
                found = Some(i - 1);
            }
            i = i - 1;
        }
        let same = match found {
            Some(j) => str_equal(previous[j].hash.as_str(), files[k].hash.as_str()),
            None => {
                assert(previous@.subrange(0, 0) =~= Seq::<ProjectFile>::empty());
                false
            },
        };
        out.push(same);
        k = k + 1;
    }
    out
}

/// The node of a resolved Rust module: `module:<path>`, located at its target file or, when
/// none was found, at the file that declares it.
pub fn module_node(module: &ModuleReference) -> (res: CodeNode)
    ensures
        res.id@ == "module:"@ + module.mod_path@,
        res.kind == NodeKind::Module,
        res.name == module.mod_path,
        res.path == (match module.target_path {
            Some(t) => Some(t),
            None => Some(module.declared_in),
        }),
        res.language == Some(ProgrammingLanguage::Rust),
        res.start_line == Some(module.line),
        res.end_line == Some(module.line),
        res.owner is None,
        res.source_scope == SourceScope::Project,
{
    let mut id = chars_of("module:");
    crate::text::append_chars(&mut id, &chars_of(module.mod_path.as_str()));
    CodeNode {
        id: string_of(&id),
        kind: NodeKind::Module,
        name: module.mod_path.clone(),
        path: match &module.target_path {
            Some(t) => Some(t.clone()),
            None => Some(module.declared_in.clone()),
        },
        language: Some(ProgrammingLanguage::Rust),
        start_line: Some(module.line),
        end_line: Some(module.line),
        owner: None,
        source_scope: SourceScope::Project,
    }
}

/// The node of the analyzed project: `project:<root>`, named after the root's last
/// component (`project` when it has none).
pub fn project_node(root: &str, name: Option<String>) -> (res: CodeNode)
    ensures
        res.id@ == "project:"@ + root@,
        res.kind == NodeKind::Project,
        res.name@ == (match name { Some(n) => n@, None => "project"@ }),
        res.path is None,
        res.source_scope == SourceScope::Project,
{
    let mut id = chars_of("project:");
    crate::text::append_chars(&mut id, &chars_of(root));
    CodeNode {
        id: string_of(&id),
        kind: NodeKind::Project,
        name: match name {
            Some(n) => n,
            None => String::from_str("project"),
        },
        path: None,
        language: None,
        start_line: None,
        end_line: None,
        owner: None,
        source_scope: SourceScope::Project,
    }
}

} // verus!
