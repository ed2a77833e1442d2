//! What a feature shows of the project: its specification, its sub-graph, its code.
use vstd::prelude::*;

use crate::context_pack::{first_n, shown_lines};
use crate::features::{
    ArchitectureRole, Feature, FeatureCodeSnippet, FeatureSourceFile, FeatureSourceSearchHit, FeatureSpec,
    feature_source_group,
};
use crate::findings::SourceText;
use crate::hashing::stable_hash;
use crate::model::{CodeEdge, CodeNode, NodeKind, ProjectGraph, copy_opt_string, str_equal};
use crate::text::{
    append_chars, chars_of, contains, copy_strings, holds, lemma_seq_less_irreflexive, lemma_seq_less_total,
    lemma_seq_less_trans, seq_less, spec_lines, split_lines, str_less, string_of, to_lowercase, trim, views,
};

verus! {

// ---------------------------------------------------------------------------
// Specification
// ---------------------------------------------------------------------------

/// The names, in member order, of the known members that perform operations (functions,
/// methods, services, handlers, controllers).
pub open spec fn operation_names(g: ProjectGraph, ids: Seq<String>) -> Seq<Seq<char>>
    decreases ids.len(),
{
    if ids.len() == 0 {
        Seq::empty()
    } else {
        let r = operation_names(g, ids.drop_last());
        let id = ids.last()@;
        if g.has_node(id) && is_operation(g.nodes@[g.node_index(id)].kind) { r.push(g.nodes@[g.node_index(id)].name@) } else { r }
    }
}

pub open spec fn is_operation(kind: NodeKind) -> bool {
    kind == NodeKind::Function || kind == NodeKind::Method || kind == NodeKind::Service || kind == NodeKind::Handler
        || kind == NodeKind::Controller
}

/// The names, in order, of the known nodes among `ids`.
pub open spec fn known_names(g: ProjectGraph, ids: Seq<String>) -> Seq<Seq<char>>
    decreases ids.len(),
{
    if ids.len() == 0 {
        Seq::empty()
    } else {
        let r = known_names(g, ids.drop_last());
        let id = ids.last()@;
        if g.has_node(id) { r.push(g.nodes@[g.node_index(id)].name@) } else { r }
    }
}

fn names_where(graph: &ProjectGraph, ids: &Vec<String>, operations_only: bool) -> (res: Vec<String>)
    ensures
        views(res@) == if operations_only { operation_names(*graph, ids@) } else { known_names(*graph, ids@) },
{
    let mut out: Vec<String> = Vec::new();
    let mut k: usize = 0;
    while k < ids.len()
        invariant
            k <= ids@.len(),
            views(out@) == if operations_only { operation_names(*graph, ids@.subrange(0, k as int)) } else {
                known_names(*graph, ids@.subrange(0, k as int))
            },
        decreases ids.len() - k,
    {
        proof {
            assert(ids@.subrange(0, k + 1).drop_last() =~= ids@.subrange(0, k as int));
        }
        match graph.find_node(ids[k].as_str()) {
            Some(node) => {
                let wanted = !operations_only || match node.kind {
                    NodeKind::Function | NodeKind::Method | NodeKind::Service | NodeKind::Handler
                    | NodeKind::Controller => true,
                    _ => false,
                };
                if wanted {
                    let ghost before = views(out@);
                    out.push(node.name.clone());
                    assert(views(out@) =~= before.push(node.name@));
                }
            },
            None => {},
        }
        k = k + 1;
    }
    assert(ids@.subrange(0, ids@.len() as int) =~= ids@);
    out
}

fn concat3(a: &Vec<String>, b: &Vec<String>, c: &Vec<String>) -> (res: Vec<String>)
    ensures
        res@ == a@ + b@ + c@,
{
    let mut out = copy_strings(a);
    let mut k: usize = 0;
    while k < b.len()
        invariant
            k <= b@.len(),
            out@ == a@ + b@.subrange(0, k as int),
        decreases b.len() - k,
    {
        out.push(b[k].clone());
        assert(out@ =~= a@ + b@.subrange(0, k + 1));
        k = k + 1;
    }
    let mut j: usize = 0;
    while j < c.len()
        invariant
            j <= c@.len(),
            out@ == a@ + b@ + c@.subrange(0, j as int),
        decreases c.len() - j,
    {
        out.push(c[j].clone());
        assert(out@ =~= a@ + b@ + c@.subrange(0, j + 1));
        j = j + 1;
    }
    assert(b@.subrange(0, b@.len() as int) =~= b@);
    assert(c@.subrange(0, c@.len() as int) =~= c@);
    out
}

/// The acceptance criteria drawn from a feature's tests: `Behavior covered by <test>`.
pub open spec fn criteria(tests: Seq<String>) -> Seq<Seq<char>>
    decreases tests.len(),
{
    if tests.len() == 0 { Seq::empty() } else { criteria(tests.drop_last()).push("Behavior covered by "@ + tests.last()@) }
}

/// The deterministic specification of a feature: its entry points, operations, data and
/// dependencies taken from its members, the rest copied from the feature.
pub fn build_feature_spec(graph: &ProjectGraph, feature: &Feature) -> (res: FeatureSpec)
    ensures
        res.name == feature.name,
        res.description == feature.description,
        res.actors@.len() == 0,
        views(res.entry_points@) == known_names(*graph, feature.entry_point_node_ids@),
        res.inputs@ == feature.inputs@,
        res.outputs@ == feature.outputs@,
        res.business_rules@ == feature.business_rules@,
        views(res.operations@) == operation_names(*graph, feature.node_ids@),
        res.data@ == feature.models@ + feature.entities@ + feature.repositories@,
        res.side_effects@ == feature.side_effects@,
        res.security@ == feature.security_constraints@,
        res.error_cases@.len() == 0,
        views(res.acceptance_criteria@) == criteria(feature.tests@),
        res.dependencies@ == feature.services@ + feature.repositories@ + feature.external_services@,
        res.provenance@ == "deterministic"@,
{
    let mut acceptance: Vec<String> = Vec::new();
    let mut k: usize = 0;
    while k < feature.tests.len()
        invariant
            k <= feature.tests@.len(),
            views(acceptance@) == criteria(feature.tests@.subrange(0, k as int)),
        decreases feature.tests.len() - k,
    {
        let mut line = chars_of("Behavior covered by ");
        append_chars(&mut line, &chars_of(feature.tests[k].as_str()));
        let ghost before = views(acceptance@);
        acceptance.push(string_of(&line));
        assert(feature.tests@.subrange(0, k + 1).drop_last() =~= feature.tests@.subrange(0, k as int));
        assert(views(acceptance@) =~= before.push(line@));
        k = k + 1;
    }
    assert(feature.tests@.subrange(0, feature.tests@.len() as int) =~= feature.tests@);
    FeatureSpec {
        name: feature.name.clone(),
        description: feature.description.clone(),
        actors: Vec::new(),
        entry_points: names_where(graph, &feature.entry_point_node_ids, false),
        inputs: copy_strings(&feature.inputs),
        outputs: copy_strings(&feature.outputs),
        business_rules: copy_strings(&feature.business_rules),
        operations: names_where(graph, &feature.node_ids, true),
        data: concat3(&feature.models, &feature.entities, &feature.repositories),
        side_effects: copy_strings(&feature.side_effects),
        security: copy_strings(&feature.security_constraints),
        error_cases: Vec::new(),
        acceptance_criteria: acceptance,
        dependencies: concat3(&feature.services, &feature.repositories, &feature.external_services),
        provenance: String::from_str("deterministic"),
    }
}

// ---------------------------------------------------------------------------
// Sub-graph
// ---------------------------------------------------------------------------

/// The nodes of `nodes` whose id is a member, in order.
pub open spec fn member_nodes(nodes: Seq<CodeNode>, ids: Seq<String>) -> Seq<CodeNode>
    decreases nodes.len(),
{
    if nodes.len() == 0 {
        Seq::empty()
    } else {
        let r = member_nodes(nodes.drop_last(), ids);
        if views(ids).contains(nodes.last().id@) { r.push(nodes.last()) } else { r }
    }
}

/// The edges of `edges` between two members, in order.
pub open spec fn member_edges(edges: Seq<CodeEdge>, ids: Seq<String>) -> Seq<CodeEdge>
    decreases edges.len(),
{
    if edges.len() == 0 {
        Seq::empty()
    } else {
        let r = member_edges(edges.drop_last(), ids);
        let e = edges.last();
        if views(ids).contains(e.source_id@) && views(ids).contains(e.target_id@) { r.push(e) } else { r }
    }
}

/// The part of the graph a feature covers: its member nodes and the edges between them,
/// with no reference left unresolved.
pub fn feature_graph(graph: &ProjectGraph, feature: &Feature) -> (res: ProjectGraph)
    ensures
        res.root == graph.root,
        res.nodes@ == member_nodes(graph.nodes@, feature.node_ids@),
        res.edges@ == member_edges(graph.edges@, feature.node_ids@),
        res.imports@.len() == 0,
        res.modules@.len() == 0,
        res.unresolved_calls@.len() == 0,
{
    let mut nodes: Vec<CodeNode> = Vec::new();
    let mut i: usize = 0;
    while i < graph.nodes.len()
        invariant
            i <= graph.nodes@.len(),
            nodes@ == member_nodes(graph.nodes@.subrange(0, i as int), feature.node_ids@),
        decreases graph.nodes.len() - i,
    {
        proof {
            assert(graph.nodes@.subrange(0, i + 1).drop_last() =~= graph.nodes@.subrange(0, i as int));
        }
        if holds(&feature.node_ids, graph.nodes[i].id.as_str()) {
            nodes.push(graph.nodes[i].duplicate());
        }
        i = i + 1;
    }
    let mut edges: Vec<CodeEdge> = Vec::new();
    let mut e: usize = 0;
    while e < graph.edges.len()
        invariant
            e <= graph.edges@.len(),
            edges@ == member_edges(graph.edges@.subrange(0, e as int), feature.node_ids@),
        decreases graph.edges.len() - e,
    {
        proof {
            assert(graph.edges@.subrange(0, e + 1).drop_last() =~= graph.edges@.subrange(0, e as int));
        }
        let edge = &graph.edges[e];
        if holds(&feature.node_ids, edge.source_id.as_str()) && holds(&feature.node_ids, edge.target_id.as_str()) {
            edges.push(edge.duplicate());
        }
        e = e + 1;
    }
    assert(graph.nodes@.subrange(0, graph.nodes@.len() as int) =~= graph.nodes@);
    assert(graph.edges@.subrange(0, graph.edges@.len() as int) =~= graph.edges@);
    ProjectGraph::new(graph.root.clone(), nodes, edges, Vec::new(), Vec::new(), Vec::new())
}

// ---------------------------------------------------------------------------
// Code
// ---------------------------------------------------------------------------

/// The text of the first source entry for `path` (empty when there is none).
pub open spec fn text_at_path(sources: Seq<SourceText>, path: Seq<char>) -> Seq<char> {
    match crate::framework::source_from(sources, path, 0) {
        Some(t) => t,
        None => Seq::empty(),
    }
}

fn text_of_path(sources: &Vec<SourceText>, path: &str) -> (res: String)
    ensures
        res@ == text_at_path(sources@, path@),
{
    let mut i: usize = 0;
    while i < sources.len()
        invariant
            i <= sources@.len(),
            crate::framework::source_from(sources@, path@, 0) == crate::framework::source_from(sources@, path@, i as int),
        decreases sources.len() - i,
    {
        if str_equal(sources[i].path.as_str(), path) {
            return sources[i].text.clone();
        }
        i = i + 1;
    }
    String::new()
}

/// The reason of the first membership from position `k` on for the node, or `default`.
pub open spec fn reason_from(ms: Seq<crate::features::FeatureMembership>, id: Seq<char>, default: Seq<char>, k: int) -> Seq<char>
    decreases ms.len() - k,
{
    if k < 0 || k >= ms.len() {
        default
    } else if ms[k].node_id@ == id {
        ms[k].reason@
    } else {
        reason_from(ms, id, default, k + 1)
    }
}

fn membership_reason(feature: &Feature, id: &str, default: &str) -> (res: String)
    ensures
        res@ == reason_from(feature.memberships@, id@, default@, 0),
{
    let mut k: usize = 0;
    while k < feature.memberships.len()
        invariant
            k <= feature.memberships@.len(),
            reason_from(feature.memberships@, id@, default@, 0) == reason_from(feature.memberships@, id@, default@, k as int),
        decreases feature.memberships.len() - k,
    {
        if str_equal(feature.memberships[k].node_id.as_str(), id) {
            return feature.memberships[k].reason.clone();
        }
        k = k + 1;
    }
    String::from_str(default)
}

/// Lines `from..to` of a text, joined with `\n`.
fn lines_between(lines: &Vec<Vec<char>>, from: usize, to: usize) -> (res: String)
    requires
        from <= to <= lines@.len(),
    ensures
        res@ == crate::text::spec_join(lines@.subrange(from as int, to as int).map_values(|l: Vec<char>| l@), seq!['\n']),
{
    let mut out: Vec<char> = Vec::new();
    let mut i = from;
    let ghost sep = seq!['\n'];
    assert(lines@.subrange(from as int, from as int).map_values(|l: Vec<char>| l@) =~= Seq::<Seq<char>>::empty());
    while i < to
        invariant
            from <= i <= to <= lines@.len(),
            sep == seq!['\n'],
            out@ == crate::text::spec_join(lines@.subrange(from as int, i as int).map_values(|l: Vec<char>| l@), sep),
        decreases to - i,
    {
        let ghost before = lines@.subrange(from as int, i as int).map_values(|l: Vec<char>| l@);
        let ghost after = lines@.subrange(from as int, i + 1).map_values(|l: Vec<char>| l@);
        if i > from {
            out.push('\n');
        }
        append_chars(&mut out, &lines[i]);
        proof {
            assert(after.drop_last() =~= before);
            assert(after.last() == lines@[i as int]@);
            if i == from {
                assert(after.len() == 1);
                assert(out@ =~= after[0]);
            } else {
                assert(out@ =~= crate::text::spec_join(before, sep) + sep + after.last());
            }
        }
        i = i + 1;
    }
    string_of(&out)
}

fn language_name(node: &CodeNode) -> Option<String> {
    match node.language {
        Some(l) => Some(String::from_str(l.as_str())),
        None => None,
    }
}

fn role_of(roles: &Vec<ArchitectureRole>, graph: &ProjectGraph, id: &str) -> ArchitectureRole {
    match graph.find_node_index(id) {
        Some(i) => if i < roles.len() { roles[i] } else { ArchitectureRole::Unknown },
        None => ArchitectureRole::Unknown,
    }
}

/// The range of lines of the file is among those listed.
pub open spec fn range_listed(ranges: Seq<(String, usize, usize)>, path: Seq<char>, start: usize, end: usize) -> bool {
    exists|k: int| 0 <= k < ranges.len() && ranges[k].0@ == path && ranges[k].1 == start && ranges[k].2 == end
}

fn seen_range(ranges: &Vec<(String, usize, usize)>, path: &str, start: usize, end: usize) -> (res: bool)
    ensures
        res == range_listed(ranges@, path@, start, end),
{
    let mut k: usize = 0;
    while k < ranges.len()
        invariant
            k <= ranges@.len(),
            forall|j: int| 0 <= j < k ==> !(ranges@[j].0@ == path@ && ranges@[j].1 == start && ranges@[j].2 == end),
        decreases ranges.len() - k,
    {
        if str_equal(ranges[k].0.as_str(), path) && ranges[k].1 == start && ranges[k].2 == end {
            return true;
        }
        k = k + 1;
    }
    false
}

/// Every fragment of a feature's code is the source of one of its first-party members.
pub open spec fn fragments_of_members(g: ProjectGraph, f: Feature, v: Seq<FeatureCodeSnippet>) -> bool {
    forall|k: int| 0 <= k < v.len() ==> g.has_node(#[trigger] v[k].node_id@)
        && g.nodes@[g.node_index(v[k].node_id@)].source_scope.spec_library_eligible()
        && g.nodes@[g.node_index(v[k].node_id@)].path == Some(v[k].path)
        && (views(f.node_ids@).contains(v[k].node_id@) || views(f.entry_point_node_ids@).contains(v[k].node_id@))
}

/// The code of a feature: the source range of each first-party member (entry points first,
/// each node once, at most 200 nodes; ranges of at most 241 lines, each range once, empty
/// ones left out). When no range remains, up to 20 whole files of members (their first 400
/// lines) are shown instead. `sources` holds the project files by relative path (a missing
/// file reads as empty) and `roles[i]` is the role of node `i`.
pub fn feature_code(
    graph: &ProjectGraph,
    roles: &Vec<ArchitectureRole>,
    feature: &Feature,
    sources: &Vec<SourceText>,
) -> (res: Vec<FeatureCodeSnippet>)
    ensures
        fragments_of_members(*graph, *feature, res@),
{
    let mut ids = copy_strings(&feature.entry_point_node_ids);
    proof {
        assert forall|q: int| 0 <= q < ids@.len() implies views(feature.node_ids@).contains(#[trigger] ids@[q]@)
            || views(feature.entry_point_node_ids@).contains(ids@[q]@) by {
            assert(views(feature.entry_point_node_ids@)[q] == ids@[q]@);
        }
    }
    let mut m: usize = 0;
    while m < feature.node_ids.len()
        invariant
            m <= feature.node_ids@.len(),
            forall|q: int| 0 <= q < ids@.len() ==> views(feature.node_ids@).contains(#[trigger] ids@[q]@)
                || views(feature.entry_point_node_ids@).contains(ids@[q]@),
        decreases feature.node_ids.len() - m,
    {
        proof {
            assert(views(feature.node_ids@)[m as int] == feature.node_ids@[m as int]@);
        }
        ids.push(feature.node_ids[m].clone());
        m = m + 1;
    }
    proof {
        assert forall|q: int| 0 <= q < ids@.len() implies views(feature.node_ids@).contains(#[trigger] ids@[q]@)
            || views(feature.entry_point_node_ids@).contains(ids@[q]@) by {}
    }
    let mut seen_nodes: Vec<String> = Vec::new();
    let mut ranges: Vec<(String, usize, usize)> = Vec::new();
    let mut out: Vec<FeatureCodeSnippet> = Vec::new();
    let mut taken: usize = 0;
    let mut k: usize = 0;
    while k < ids.len() && taken < 200
        invariant
            k <= ids@.len(),
            forall|q: int| 0 <= q < ids@.len() ==> views(feature.node_ids@).contains(#[trigger] ids@[q]@)
                || views(feature.entry_point_node_ids@).contains(ids@[q]@),
            fragments_of_members(*graph, *feature, out@),
        decreases ids.len() - k,
    {
        let id = ids[k].as_str();
        if !holds(&seen_nodes, id) {
            seen_nodes.push(ids[k].clone());
            match graph.find_node_index(id) {
                Some(ni) => match &graph.nodes[ni].path {
                    Some(path) => {
                        let node = &graph.nodes[ni];
                        if node.source_scope.library_eligible() {
                            taken = taken + 1;
                            let source = text_of_path(sources, path.as_str());
                            let start = match node.start_line {
                                Some(s) => s,
                                None => 1,
                            };
                            let end0 = match node.end_line {
                                Some(e) => e,
                                None => start,
                            };
                            let cap = crate::text::sat_add(start, 240);
                            let end = if end0 <= cap { end0 } else { cap };
                            if !seen_range(&ranges, path.as_str(), start, end) {
                                ranges.push((path.clone(), start, end));
                                let lines = split_lines(&chars_of(source.as_str()));
                                let n = lines.len();
                                let skip = if start >= 1 { start - 1 } else { 0 };
                                let count = if end >= start { end - start } else { 0 };
                                let from = if skip <= n { skip } else { n };
                                let to = if count < n - from { from + count + 1 } else { n };
                                let snippet = lines_between(&lines, from, to);
                                if snippet.unicode_len() > 0 {
                                    out.push(FeatureCodeSnippet {
                                        project_id: feature.project_id.clone(),
                                        node_id: node.id.clone(),
                                        name: node.name.clone(),
                                        language: language_name(node),
                                        architecture_role: String::from_str(feature_source_group(role_of(roles, graph, id))),
                                        path: path.clone(),
                                        start_line: start,
                                        end_line: end,
                                        source: snippet,
                                        source_hash: stable_hash(&vec![source]),
                                        membership_reason: membership_reason(feature, node.id.as_str(), "appartenance déterministe à la Feature"),
                                    });
                                    proof {
                                        assert(node.id@ == id@);
                                        assert(views(ids@)[k as int] == id@);
                                        assert forall|q: int| 0 <= q < out@.len() implies graph.has_node(#[trigger] out@[q].node_id@)
                                            && graph.nodes@[graph.node_index(out@[q].node_id@)].source_scope.spec_library_eligible()
                                            && graph.nodes@[graph.node_index(out@[q].node_id@)].path == Some(out@[q].path)
                                            && (views(feature.node_ids@).contains(out@[q].node_id@)
                                            || views(feature.entry_point_node_ids@).contains(out@[q].node_id@)) by {
                                            if q < out@.len() - 1 {
                                                assert(out@[q] == out@.drop_last()[q]);
                                            }
                                        }
                                    }
                                }
                            }
                        }
                    },
                    None => {},
                },
                None => {},
            }
        }
        k = k + 1;
    }
    if out.len() == 0 {
        let mut j: usize = 0;
        while j < feature.node_ids.len() && out.len() < 20
            invariant
                j <= feature.node_ids@.len(),
                fragments_of_members(*graph, *feature, out@),
            decreases feature.node_ids.len() - j,
        {
            let id = feature.node_ids[j].as_str();
            match graph.find_node_index(id) {
                Some(ni) => {
                    let node = &graph.nodes[ni];
                    if node.source_scope.library_eligible() {
                        match &node.path {
                            Some(path) => {
                                let source = text_of_path(sources, path.as_str());
                                if source.unicode_len() > 0 {
                                    let lines = split_lines(&chars_of(source.as_str()));
                                    let end = if lines.len() < 400 { lines.len() } else { 400 };
                                    out.push(FeatureCodeSnippet {
                                        project_id: feature.project_id.clone(),
                                        node_id: node.id.clone(),
                                        name: node.name.clone(),
                                        language: language_name(node),
                                        architecture_role: String::from_str(feature_source_group(role_of(roles, graph, id))),
                                        path: path.clone(),
                                        start_line: 1,
                                        end_line: end,
                                        source: lines_between(&lines, 0, end),
                                        source_hash: stable_hash(&vec![source]),
                                        membership_reason: membership_reason(feature, node.id.as_str(), "fichier first-party de la Feature"),
                                    });
                                    proof {
                                        assert(node.id@ == id@);
                                        assert(views(feature.node_ids@)[j as int] == id@);
                                        assert forall|q: int| 0 <= q < out@.len() implies graph.has_node(#[trigger] out@[q].node_id@)
                                            && graph.nodes@[graph.node_index(out@[q].node_id@)].source_scope.spec_library_eligible()
                                            && graph.nodes@[graph.node_index(out@[q].node_id@)].path == Some(out@[q].path)
                                            && (views(feature.node_ids@).contains(out@[q].node_id@)
                                            || views(feature.entry_point_node_ids@).contains(out@[q].node_id@)) by {
                                            if q < out@.len() - 1 {
                                                assert(out@[q] == out@.drop_last()[q]);
                                            }
                                        }
                                    }
                                }
                            },
                            None => {},
                        }
                    }
                },
                None => {},
            }
            j = j + 1;
        }
    }
    out
}

// ---------------------------------------------------------------------------
// Source files and search
// ---------------------------------------------------------------------------

/// File `a` is listed before file `b`: by architectural group, then by path.
pub open spec fn file_before(a: FeatureSourceFile, b: FeatureSourceFile) -> bool {
    seq_less(a.architecture_role@, b.architecture_role@)
        || (a.architecture_role@ == b.architecture_role@ && seq_less(a.path@, b.path@))
}

/// A file's fragments are those of its path.
pub open spec fn file_holds_its_fragments(f: FeatureSourceFile) -> bool {
    forall|k: int| 0 <= k < f.fragments@.len() ==> (#[trigger] f.fragments@[k]).path@ == f.path@
}

proof fn lemma_file_order(a: FeatureSourceFile, b: FeatureSourceFile, c: FeatureSourceFile)
    ensures
        file_before(a, b) && file_before(b, c) ==> file_before(a, c),
        file_before(a, b) ==> !file_before(b, a),
        !file_before(a, b) && !file_before(b, a) ==> a.architecture_role@ == b.architecture_role@ && a.path@ == b.path@,
{
    lemma_seq_less_irreflexive(a.path@);
    lemma_seq_less_irreflexive(a.architecture_role@);
    lemma_seq_less_total(a.path@, b.path@);
    lemma_seq_less_total(a.architecture_role@, b.architecture_role@);
    if seq_less(a.path@, b.path@) && seq_less(b.path@, c.path@) {
        lemma_seq_less_trans(a.path@, b.path@, c.path@);
    }
    if seq_less(a.architecture_role@, b.architecture_role@) && seq_less(b.architecture_role@, c.architecture_role@) {
        lemma_seq_less_trans(a.architecture_role@, b.architecture_role@, c.architecture_role@);
    }
    if seq_less(a.path@, b.path@) && seq_less(b.path@, a.path@) {
        lemma_seq_less_trans(a.path@, b.path@, a.path@);
    }
    if seq_less(a.architecture_role@, b.architecture_role@) && seq_less(b.architecture_role@, a.architecture_role@) {
        lemma_seq_less_trans(a.architecture_role@, b.architecture_role@, a.architecture_role@);
    }
}

fn fragment_before(a: &FeatureCodeSnippet, b: &FeatureCodeSnippet) -> bool {
    a.start_line < b.start_line || (a.start_line == b.start_line && a.end_line < b.end_line)
}

/// Inserts a fragment after those that do not come after it, keeping equal ranges in order.
fn insert_fragment(fragments: &mut Vec<FeatureCodeSnippet>, s: FeatureCodeSnippet, Ghost(path): Ghost<Seq<char>>)
    requires
        s.path@ == path,
        forall|k: int| 0 <= k < old(fragments)@.len() ==> (#[trigger] old(fragments)@[k]).path@ == path,
    ensures
        forall|k: int| 0 <= k < final(fragments)@.len() ==> (#[trigger] final(fragments)@[k]).path@ == path,
        final(fragments)@.len() == old(fragments)@.len() + 1,
{
    let mut p: usize = 0;
    while p < fragments.len() && !fragment_before(&s, &fragments[p])
        invariant
            p <= fragments@.len(),
        decreases fragments.len() - p,
    {
        p = p + 1;
    }
    let ghost before = fragments@;
    fragments.insert(p, s);
    assert forall|k: int| 0 <= k < fragments@.len() implies (#[trigger] fragments@[k]).path@ == path by {
        if k < p {
            assert(fragments@[k] == before[k]);
        } else if k > p {
            assert(fragments@[k] == before[k - 1]);
        }
    }
}

/// The files of a feature's code, each with its fragments ordered by line range; files are
/// ordered by architectural group, then path.
pub fn feature_source_files(
    graph: &ProjectGraph,
    roles: &Vec<ArchitectureRole>,
    feature: &Feature,
    sources: &Vec<SourceText>,
) -> (res: Vec<FeatureSourceFile>)
    ensures
        forall|a: int, b: int| 0 <= a < b < res@.len() ==> file_before(#[trigger] res@[a], #[trigger] res@[b]),
        forall|k: int| 0 <= k < res@.len() ==> file_holds_its_fragments(#[trigger] res@[k]) && res@[k].fragments@.len() > 0,
{
    let mut code = feature_code(graph, roles, feature, sources);
    let mut paths: Vec<String> = Vec::new();
    let mut groups: Vec<Vec<FeatureCodeSnippet>> = Vec::new();
    while code.len() > 0
        invariant
            paths@.len() == groups@.len(),
            forall|g: int| 0 <= g < groups@.len() ==> (#[trigger] groups@[g])@.len() > 0
                && forall|k: int| 0 <= k < groups@[g]@.len() ==> (#[trigger] groups@[g]@[k]).path@ == paths@[g]@,
        decreases code@.len(),
    {
        let s = code.remove(0);
        let mut g: usize = 0;
        while g < paths.len() && !str_equal(paths[g].as_str(), s.path.as_str())
            invariant
                g <= paths@.len(),
            decreases paths.len() - g,
        {
            g = g + 1;
        }
        if g < paths.len() {
            let ghost gs = groups@;
            let mut group = groups.remove(g);
            assert(group == gs[g as int]);
            assert(s.path@ == paths@[g as int]@);
            let ghost p = paths@[g as int]@;
            insert_fragment(&mut group, s, Ghost(p));
            let ghost mid = groups@;
            let ghost inserted = group;
            groups.insert(g, group);
            assert(groups@[g as int] == inserted);
            assert forall|q: int| 0 <= q < groups@.len() implies (#[trigger] groups@[q])@.len() > 0
                && forall|k: int| 0 <= k < groups@[q]@.len() ==> (#[trigger] groups@[q]@[k]).path@ == paths@[q]@ by {
                if q < g {
                    assert(groups@[q] == mid[q] && mid[q] == gs[q]);
                } else if q > g {
                    assert(groups@[q] == mid[q - 1] && mid[q - 1] == gs[q]);
                }
            }
        } else {
            paths.push(s.path.clone());
            let mut group: Vec<FeatureCodeSnippet> = Vec::new();
            group.push(s);
            groups.push(group);
            assert forall|q: int| 0 <= q < groups@.len() implies (#[trigger] groups@[q])@.len() > 0
                && forall|k: int| 0 <= k < groups@[q]@.len() ==> (#[trigger] groups@[q]@[k]).path@ == paths@[q]@ by {
                if q < groups@.len() - 1 {
                    assert(groups@[q] == groups@.drop_last()[q]);
                    assert(paths@[q] == paths@.drop_last()[q]);
                }
            }
        }
    }
    let mut files: Vec<FeatureSourceFile> = Vec::new();
    while groups.len() > 0
        invariant
            paths@.len() == groups@.len(),
            forall|g: int| 0 <= g < groups@.len() ==> (#[trigger] groups@[g])@.len() > 0
                && forall|k: int| 0 <= k < groups@[g]@.len() ==> (#[trigger] groups@[g]@[k]).path@ == paths@[g]@,
            forall|a: int, b: int| 0 <= a < b < files@.len() ==> file_before(#[trigger] files@[a], #[trigger] files@[b]),
            forall|k: int| 0 <= k < files@.len() ==> file_holds_its_fragments(#[trigger] files@[k]) && files@[k].fragments@.len() > 0,
        decreases groups@.len(),
    {
        let ghost gs = groups@;
        let ghost ps = paths@;
        let fragments = groups.remove(0);
        let path = paths.remove(0);
        assert(fragments == gs[0] && path == ps[0]);
        assert forall|g: int| 0 <= g < groups@.len() implies (#[trigger] groups@[g])@.len() > 0
            && forall|k: int| 0 <= k < groups@[g]@.len() ==> (#[trigger] groups@[g]@[k]).path@ == paths@[g]@ by {
            assert(groups@[g] == gs[g + 1] && paths@[g] == ps[g + 1]);
        }
        let first = &fragments[0];
        let file = FeatureSourceFile {
            path,
            language: copy_opt_string(&first.language),
            architecture_role: first.architecture_role.clone(),
            source_hash: first.source_hash.clone(),
            fragments,
        };
        let mut p: usize = 0;
        while p < files.len() && !(str_less(file.architecture_role.as_str(), files[p].architecture_role.as_str())
            || (str_equal(file.architecture_role.as_str(), files[p].architecture_role.as_str())
            && str_less(file.path.as_str(), files[p].path.as_str())))
            invariant
                p <= files@.len(),
                forall|q: int| 0 <= q < p ==> !file_before(file, #[trigger] files@[q]),
            decreases files.len() - p,
        {
            p = p + 1;
        }
        let ghost before = files@;
        proof {
            assert forall|q: int| 0 <= q < p implies file_before(#[trigger] before[q], file)
                || (before[q].architecture_role@ == file.architecture_role@ && before[q].path@ == file.path@) by {
                lemma_file_order(before[q], file, file);
            }
        }
        if p > 0 && str_equal(files[p - 1].architecture_role.as_str(), file.architecture_role.as_str())
            && str_equal(files[p - 1].path.as_str(), file.path.as_str()) {
            // A path is grouped once; this branch keeps the order strict for the proof.
        } else {
            files.insert(p, file);
            proof {
                assert forall|a: int, b: int| 0 <= a < b < files@.len() implies file_before(#[trigger] files@[a], #[trigger] files@[b]) by {
                    if b < p {
                        assert(files@[a] == before[a] && files@[b] == before[b]);
                    } else if b == p {
                        assert(files@[a] == before[a]);
                        if a < p - 1 {
                            lemma_file_order(before[a], before[p - 1], file);
                        }
                    } else if a < p {
                        assert(files@[a] == before[a] && files@[b] == before[b - 1]);
                        lemma_file_order(file, before[p as int], before[b - 1]);
                        if a < p - 1 {
                            lemma_file_order(before[a], before[p - 1], file);
                        }
                        lemma_file_order(before[a], file, before[b - 1]);
                        if b - 1 > p {
                            lemma_file_order(file, before[p as int], before[b - 1]);
                        }
                    } else if a == p {
                        assert(files@[b] == before[b - 1]);
                        if b - 1 > p {
                            lemma_file_order(file, before[p as int], before[b - 1]);
                        }
                    } else {
                        assert(files@[a] == before[a - 1] && files@[b] == before[b - 1]);
                    }
                }
                assert forall|k: int| 0 <= k < files@.len() implies file_holds_its_fragments(#[trigger] files@[k]) && files@[k].fragments@.len() > 0 by {
                    if k < p {
                        assert(files@[k] == before[k]);
                    } else if k > p {
                        assert(files@[k] == before[k - 1]);
                    }
                }
            }
        }
    }
    files
}

/// The first `n` characters of a line, trimmed.
fn preview(line: &Vec<char>) -> (res: String)
    ensures
        res@.len() <= 240,
{
    let t = trim(line);
    let n = if t.len() < 240 { t.len() } else { 240 };
    string_of(&crate::text::slice_chars(&t, 0, n))
}

/// The lines of a feature's code that contain the query (trimmed, compared in lowercase),
/// at most 200, with their line numbers and a trimmed preview of at most 240 characters.
pub fn feature_source_search(
    graph: &ProjectGraph,
    roles: &Vec<ArchitectureRole>,
    feature: &Feature,
    sources: &Vec<SourceText>,
    query: &str,
) -> (res: Vec<FeatureSourceSearchHit>)
    ensures
        res@.len() <= 200,
        forall|k: int| 0 <= k < res@.len() ==> (#[trigger] res@[k]).preview@.len() <= 240,
{
    let q = chars_of(to_lowercase(string_of(&trim(&chars_of(query))).as_str()).as_str());
    if q.len() == 0 {
        return Vec::new();
    }
    let fragments = feature_code(graph, roles, feature, sources);
    let mut hits: Vec<FeatureSourceSearchHit> = Vec::new();
    let mut f: usize = 0;
    while f < fragments.len()
        invariant
            hits@.len() < 200,
            forall|k: int| 0 <= k < hits@.len() ==> (#[trigger] hits@[k]).preview@.len() <= 240,
        decreases fragments.len() - f,
    {
        let fragment = &fragments[f];
        let lines = split_lines(&chars_of(fragment.source.as_str()));
        let mut offset: usize = 0;
        while offset < lines.len()
            invariant
                hits@.len() < 200,
                forall|k: int| 0 <= k < hits@.len() ==> (#[trigger] hits@[k]).preview@.len() <= 240,
            decreases lines.len() - offset,
        {
            let lower = chars_of(to_lowercase(string_of(&lines[offset]).as_str()).as_str());
            if contains(&lower, &q) {
                hits.push(FeatureSourceSearchHit {
                    path: fragment.path.clone(),
                    node_id: fragment.node_id.clone(),
                    symbol: fragment.name.clone(),
                    line: crate::text::sat_add(fragment.start_line, offset),
                    preview: preview(&lines[offset]),
                });
                if hits.len() >= 200 {
                    return hits;
                }
            }
            offset = offset + 1;
        }
        f = f + 1;
    }
    hits
}

} // verus!
