//! Deterministic feature detection: candidate flows grown from entry points, their
//! completeness, and the grouping of route families.
use vstd::prelude::*;

use crate::context_pack::test_like;
use crate::features::{
    ArchitectureRole, Feature, FeatureMembership, FeatureStatus, MembershipSource, edge_known, feature_name,
    feature_relation_cost, feature_root, id_listed, name_list, names, spec_feature_root, spec_feature_valid,
    spec_relation_cost,
};
use crate::hashing::stable_hash;
use crate::model::{
    CallReference, CodeEdge, CodeNode, NodeKind, ProjectGraph, RelationKind, first_node_with_id,
    lemma_first_node_unique, str_equal,
};
use crate::text::{
    append_chars, chars_of, contains, decimal, ends_with, holds, insert_sorted_unique, lemma_seq_less_irreflexive,
    lemma_seq_less_total, lemma_seq_less_trans, seq_less, str_less, replace_char, seq_contains,
    seq_ends_with, seq_starts_with, spec_decimal, spec_replace_char, spec_to_lowercase, starts_with,
    strictly_sorted, string_of, to_lowercase, views,
};

verus! {

// ---------------------------------------------------------------------------
// Completeness
// ---------------------------------------------------------------------------

/// The distinct roles of the known nodes among `ids`, in order of first appearance;
/// `roles[i]` is the role of the graph's node `i`.
pub open spec fn role_list(g: ProjectGraph, roles: Seq<ArchitectureRole>, ids: Seq<String>) -> Seq<ArchitectureRole>
    decreases ids.len(),
{
    if ids.len() == 0 {
        Seq::empty()
    } else {
        let r = role_list(g, roles, ids.drop_last());
        if g.has_node(ids.last()@) && !r.contains(roles[g.node_index(ids.last()@)]) {
            r.push(roles[g.node_index(ids.last()@)])
        } else {
            r
        }
    }
}

/// How many of `ids` name a node of the graph.
pub open spec fn known_count(g: ProjectGraph, ids: Seq<String>) -> int
    decreases ids.len(),
{
    if ids.len() == 0 {
        0
    } else {
        known_count(g, ids.drop_last()) + if g.has_node(ids.last()@) { 1int } else { 0int }
    }
}

/// How many unresolved calls start from one of `ids`.
pub open spec fn unresolved_count(calls: Seq<CallReference>, ids: Seq<String>) -> int
    decreases calls.len(),
{
    if calls.len() == 0 {
        0
    } else {
        unresolved_count(calls.drop_last(), ids) + if views(ids).contains(calls.last().caller_id@) { 1int } else { 0int }
    }
}

/// The signal is present when the feature lists such members or one of its roles is listed.
pub open spec fn has_layer(listed: bool, rl: Seq<ArchitectureRole>, a: ArchitectureRole, b: ArchitectureRole) -> bool {
    listed || rl.contains(a) || rl.contains(b)
}

/// The signals of a feature: entry points, several known members, several layers, routes,
/// services, persistence, tests, templates; then the number of layers (at most 5) and of
/// unresolved calls from its members.
pub open spec fn feature_signals(g: ProjectGraph, roles: Seq<ArchitectureRole>, f: Feature) -> (Seq<bool>, int, int) {
    let rl = role_list(g, roles, f.node_ids@);
    (
        seq![
            f.entry_point_node_ids@.len() > 0,
            known_count(g, f.node_ids@) > 1,
            rl.len() >= 2,
            f.routes@.len() > 0,
            has_layer(f.services@.len() > 0, rl, ArchitectureRole::Service, ArchitectureRole::Provider),
            has_layer(f.repositories@.len() > 0, rl, ArchitectureRole::Repository, ArchitectureRole::Database),
            has_layer(f.tests@.len() > 0, rl, ArchitectureRole::Test, ArchitectureRole::Test),
            has_layer(f.templates@.len() > 0, rl, ArchitectureRole::Template, ArchitectureRole::Page),
        ],
        if rl.len() < 5 { rl.len() as int } else { 5 },
        unresolved_count(g.unresolved_calls@, f.node_ids@),
    )
}

/// The score, in thousandths before clamping, of a feature with these signals.
pub open spec fn score_of(s: Seq<bool>, layers: int, unresolved: int) -> int {
    (if s[0] { 150int } else { 0int }) + (if s[1] { 150int } else { 0int }) + 40 * layers
        + (if s[3] { 100int } else { 0int }) + (if s[4] { 100int } else { 0int })
        + (if s[5] { 100int } else { 0int }) + (if s[6] { 100int } else { 0int })
        + (if s[7] { 50int } else { 0int }) - 30 * (if unresolved < 4 { unresolved } else { 4 })
}

/// The completeness of a feature, in thousandths, between 0 and 1 000.
pub open spec fn spec_completeness(g: ProjectGraph, roles: Seq<ArchitectureRole>, f: Feature) -> int {
    let (flags, layers, unresolved) = feature_signals(g, roles, f);
    let s = score_of(flags, layers, unresolved);
    if s < 0 { 0 } else if s > 1000 { 1000 } else { s }
}

/// `s` when `b` holds, nothing otherwise.
pub open spec fn when(b: bool, s: Seq<char>) -> Seq<Seq<char>> {
    if b { seq![s] } else { Seq::empty() }
}

/// The signals lacking, in a fixed order.
pub open spec fn missing_of(s: Seq<bool>, unresolved: int) -> Seq<Seq<char>> {
    when(!s[0], "aucun point d’entrée détecté"@)
        + when(!s[1], "un seul nœud first-party relié"@)
        + when(!s[2], "une seule couche architecturale représentée"@)
        + when(!s[3], "aucune route associée"@)
        + when(!s[4], "aucun service applicatif détecté"@)
        + when(!s[5], "aucune persistance détectée"@)
        + when(!s[6], "aucun test relié"@)
        + when(unresolved > 0, spec_decimal(unresolved as nat) + " référence(s) interne(s) non résolue(s)"@)
}

/// The signals a feature lacks.
pub open spec fn spec_missing_signals(g: ProjectGraph, roles: Seq<ArchitectureRole>, f: Feature) -> Seq<Seq<char>> {
    let (flags, layers, unresolved) = feature_signals(g, roles, f);
    missing_of(flags, unresolved)
}

fn push_when(out: &mut Vec<String>, b: bool, s: &str)
    ensures
        views(final(out)@) == views(old(out)@) + when(b, s@),
{
    if b {
        out.push(String::from_str(s));
        assert(views(out@) =~= views(old(out)@) + when(b, s@));
    } else {
        assert(views(out@) =~= views(old(out)@) + when(b, s@));
    }
}

fn missing_list(flags: &Vec<bool>, unresolved: usize) -> (res: Vec<String>)
    requires
        flags@.len() == 8,
    ensures
        views(res@) == missing_of(flags@, unresolved as int),
{
    let mut out: Vec<String> = Vec::new();
    assert(views(out@) =~= Seq::<Seq<char>>::empty());
    push_when(&mut out, !flags[0], "aucun point d’entrée détecté");
    push_when(&mut out, !flags[1], "un seul nœud first-party relié");
    push_when(&mut out, !flags[2], "une seule couche architecturale représentée");
    push_when(&mut out, !flags[3], "aucune route associée");
    push_when(&mut out, !flags[4], "aucun service applicatif détecté");
    push_when(&mut out, !flags[5], "aucune persistance détectée");
    push_when(&mut out, !flags[6], "aucun test relié");
    let ghost before = views(out@);
    if unresolved > 0 {
        let mut text = decimal(unresolved);
        append_chars(&mut text, &chars_of(" référence(s) interne(s) non résolue(s)"));
        out.push(string_of(&text));
    }
    assert(views(out@) =~= before + when(unresolved > 0, spec_decimal(unresolved as nat) + " référence(s) interne(s) non résolue(s)"@));
    out
}

fn clamped_score(flags: &Vec<bool>, layers: usize, unresolved: usize) -> (res: u32)
    requires
        flags@.len() == 8,
        layers <= 5,
    ensures
        res == (if score_of(flags@, layers as int, unresolved as int) < 0 { 0 }
            else if score_of(flags@, layers as int, unresolved as int) > 1000 { 1000 }
            else { score_of(flags@, layers as int, unresolved as int) }),
{
    let counted: i64 = if unresolved < 4 { unresolved as i64 } else { 4 };
    let score: i64 = (if flags[0] { 150 } else { 0 }) + (if flags[1] { 150 } else { 0 }) + 40 * (layers as i64)
        + (if flags[3] { 100 } else { 0 }) + (if flags[4] { 100 } else { 0 }) + (if flags[5] { 100 } else { 0 })
        + (if flags[6] { 100 } else { 0 }) + (if flags[7] { 50 } else { 0 }) - 30 * counted;
    if score < 0 { 0 } else if score > 1000 { 1000 } else { score as u32 }
}

fn roles_of(graph: &ProjectGraph, roles: &Vec<ArchitectureRole>, ids: &Vec<String>) -> (res: (Vec<ArchitectureRole>, usize))
    requires
        roles@.len() == graph.nodes@.len(),
    ensures
        res.0@ == role_list(*graph, roles@, ids@),
        res.1 == known_count(*graph, ids@),
{
    let mut out: Vec<ArchitectureRole> = Vec::new();
    let mut known: usize = 0;
    let mut k: usize = 0;
    while k < ids.len()
        invariant
            k <= ids@.len(),
            roles@.len() == graph.nodes@.len(),
            out@ == role_list(*graph, roles@, ids@.subrange(0, k as int)),
            known == known_count(*graph, ids@.subrange(0, k as int)),
            known <= k,
        decreases ids.len() - k,
    {
        proof {
            assert(ids@.subrange(0, k + 1).drop_last() =~= ids@.subrange(0, k as int));
        }
        match graph.find_node_index(ids[k].as_str()) {
            Some(i) => {
                let role = roles[i];
                let mut seen = false;
                let mut q: usize = 0;
                while q < out.len()
                    invariant
                        q <= out@.len(),
                        seen == exists|j: int| 0 <= j < q && out@[j] == role,
                    decreases out.len() - q,
                {
                    if out[q] == role {
                        seen = true;
                    }
                    q = q + 1;
                }
                if !seen {
                    out.push(role);
                }
                known = known + 1;
            },
            None => {},
        }
        k = k + 1;
    }
    assert(ids@.subrange(0, ids@.len() as int) =~= ids@);
    (out, known)
}

fn unresolved_of(graph: &ProjectGraph, ids: &Vec<String>) -> (res: usize)
    ensures
        res == unresolved_count(graph.unresolved_calls@, ids@),
{
    let calls = &graph.unresolved_calls;
    let mut count: usize = 0;
    let mut k: usize = 0;
    while k < calls.len()
        invariant
            k <= calls@.len(),
            count == unresolved_count(calls@.subrange(0, k as int), ids@),
            count <= k,
        decreases calls.len() - k,
    {
        proof {
            assert(calls@.subrange(0, k + 1).drop_last() =~= calls@.subrange(0, k as int));
        }
        if crate::text::holds(ids, calls[k].caller_id.as_str()) {
            count = count + 1;
        }
        k = k + 1;
    }
    assert(calls@.subrange(0, calls@.len() as int) =~= calls@);
    count
}

fn role_listed(rl: &Vec<ArchitectureRole>, role: ArchitectureRole) -> (res: bool)
    ensures
        res == rl@.contains(role),
{
    let mut q: usize = 0;
    while q < rl.len()
        invariant
            q <= rl@.len(),
            forall|j: int| 0 <= j < q ==> rl@[j] != role,
        decreases rl.len() - q,
    {
        if rl[q] == role {
            assert(rl@[q as int] == role);
            return true;
        }
        q = q + 1;
    }
    false
}

/// Recomputes a feature's completeness and missing signals from its members; `roles[i]`
/// is the architectural role of the graph's node `i`. Nothing else changes.
#[verifier::spinoff_prover]
#[verifier::rlimit(40)]
pub fn refresh_feature_completeness(graph: &ProjectGraph, roles: &Vec<ArchitectureRole>, feature: &mut Feature)
    requires
        roles@.len() == graph.nodes@.len(),
    ensures
        final(feature).completeness_permille == spec_completeness(*graph, roles@, *old(feature)),
        views(final(feature).missing_signals@) == spec_missing_signals(*graph, roles@, *old(feature)),
        *final(feature) == (Feature {
            completeness_permille: final(feature).completeness_permille,
            missing_signals: final(feature).missing_signals,
            ..*old(feature)
        }),
{
    let (rl, known) = roles_of(graph, roles, &feature.node_ids);
    let unresolved = unresolved_of(graph, &feature.node_ids);
    let flags: Vec<bool> = vec![
        feature.entry_point_node_ids.len() > 0,
        known > 1,
        rl.len() >= 2,
        feature.routes.len() > 0,
        feature.services.len() > 0 || role_listed(&rl, ArchitectureRole::Service) || role_listed(&rl, ArchitectureRole::Provider),
        feature.repositories.len() > 0 || role_listed(&rl, ArchitectureRole::Repository) || role_listed(&rl, ArchitectureRole::Database),
        feature.tests.len() > 0 || role_listed(&rl, ArchitectureRole::Test),
        feature.templates.len() > 0 || role_listed(&rl, ArchitectureRole::Template) || role_listed(&rl, ArchitectureRole::Page),
    ];
    let layers: usize = if rl.len() < 5 { rl.len() } else { 5 };
    proof {
        let (f2, l2, u2) = feature_signals(*graph, roles@, *old(feature));
        assert(flags@ =~= f2);
    }
    let clamped = clamped_score(&flags, layers, unresolved);
    let missing = missing_list(&flags, unresolved);
    feature.completeness_permille = clamped;
    feature.missing_signals = missing;
}

// ---------------------------------------------------------------------------
// Facets
// ---------------------------------------------------------------------------

/// The names, in member order, of the known members whose path names test code.
pub open spec fn test_member_names(g: ProjectGraph, ids: Seq<String>) -> Seq<Seq<char>>
    decreases ids.len(),
{
    if ids.len() == 0 {
        Seq::empty()
    } else {
        let r = test_member_names(g, ids.drop_last());
        if g.has_node(ids.last()@) && g.nodes@[g.node_index(ids.last()@)].path is Some
            && test_like(g.nodes@[g.node_index(ids.last()@)].path->0@) {
            r.push(g.nodes@[g.node_index(ids.last()@)].name@)
        } else {
            r
        }
    }
}

fn test_members(graph: &ProjectGraph, ids: &Vec<String>) -> (res: Vec<String>)
    ensures
        views(res@) == test_member_names(*graph, ids@),
{
    let mut out: Vec<String> = Vec::new();
    let mut k: usize = 0;
    while k < ids.len()
        invariant
            k <= ids@.len(),
            views(out@) == test_member_names(*graph, ids@.subrange(0, k as int)),
        decreases ids.len() - k,
    {
        proof {
            assert(ids@.subrange(0, k + 1).drop_last() =~= ids@.subrange(0, k as int));
        }
        match graph.find_node(ids[k].as_str()) {
            Some(node) => {
                match &node.path {
                    Some(p) => {
                        let lower = to_lowercase(p.as_str());
                        let l = chars_of(lower.as_str());
                        if contains(&l, &chars_of("test")) || contains(&l, &chars_of("spec")) {
                            out.push(node.name.clone());
                            assert(views(out@) =~= test_member_names(*graph, ids@.subrange(0, k as int)).push(node.name@));
                        }
                    },
                    None => {},
                }
            },
            None => {},
        }
        k = k + 1;
    }
    assert(ids@.subrange(0, ids@.len() as int) =~= ids@);
    out
}

/// The facets of a feature: its members' names grouped by kind.
#[verifier::opaque]
pub open spec fn facets_hold(g: ProjectGraph, f: Feature) -> bool {
    &&& name_list(views(f.routes@), g, f.node_ids@, seq![NodeKind::Route, NodeKind::ApiEndpoint])
    &&& name_list(views(f.pages@), g, f.node_ids@, seq![NodeKind::Page, NodeKind::Component])
    &&& name_list(views(f.services@), g, f.node_ids@, seq![NodeKind::Service, NodeKind::Handler, NodeKind::Controller])
    &&& name_list(views(f.repositories@), g, f.node_ids@, seq![NodeKind::Repository])
    &&& name_list(views(f.models@), g, f.node_ids@, seq![NodeKind::Model])
    &&& name_list(views(f.entities@), g, f.node_ids@, seq![NodeKind::Entity])
    &&& name_list(views(f.templates@), g, f.node_ids@, seq![NodeKind::Template])
    &&& views(f.tests@) == test_member_names(g, f.node_ids@)
}

pub proof fn lemma_facets_same_fields(g: ProjectGraph, a: Feature, b: Feature)
    requires
        a.node_ids == b.node_ids,
        a.routes == b.routes,
        a.pages == b.pages,
        a.services == b.services,
        a.repositories == b.repositories,
        a.models == b.models,
        a.entities == b.entities,
        a.templates == b.templates,
        a.tests == b.tests,
    ensures
        facets_hold(g, a) == facets_hold(g, b),
{
    reveal(facets_hold);
}

fn set_facets(graph: &ProjectGraph, feature: &mut Feature)
    ensures
        facets_hold(*graph, *final(feature)),
        *final(feature) == (Feature {
            routes: final(feature).routes,
            pages: final(feature).pages,
            services: final(feature).services,
            repositories: final(feature).repositories,
            models: final(feature).models,
            entities: final(feature).entities,
            templates: final(feature).templates,
            tests: final(feature).tests,
            ..*old(feature)
        }),
{
    let k1 = vec![NodeKind::Route, NodeKind::ApiEndpoint];
    let k2 = vec![NodeKind::Page, NodeKind::Component];
    let k3 = vec![NodeKind::Service, NodeKind::Handler, NodeKind::Controller];
    let k4 = vec![NodeKind::Repository];
    let k5 = vec![NodeKind::Model];
    let k6 = vec![NodeKind::Entity];
    let k7 = vec![NodeKind::Template];
    assert(k1@ =~= seq![NodeKind::Route, NodeKind::ApiEndpoint]);
    assert(k2@ =~= seq![NodeKind::Page, NodeKind::Component]);
    assert(k3@ =~= seq![NodeKind::Service, NodeKind::Handler, NodeKind::Controller]);
    assert(k4@ =~= seq![NodeKind::Repository]);
    assert(k5@ =~= seq![NodeKind::Model]);
    assert(k6@ =~= seq![NodeKind::Entity]);
    assert(k7@ =~= seq![NodeKind::Template]);
    feature.routes = names(graph, &feature.node_ids, &k1);
    feature.pages = names(graph, &feature.node_ids, &k2);
    feature.services = names(graph, &feature.node_ids, &k3);
    feature.repositories = names(graph, &feature.node_ids, &k4);
    feature.models = names(graph, &feature.node_ids, &k5);
    feature.entities = names(graph, &feature.node_ids, &k6);
    feature.templates = names(graph, &feature.node_ids, &k7);
    feature.tests = test_members(graph, &feature.node_ids);
    proof {
        reveal(facets_hold);
    }
}

/// Recomputes a feature's facets from its members (routes, pages, services, repositories,
/// models, entities, templates, tests), then its completeness. Nothing else changes.
pub fn refresh_feature_facets(graph: &ProjectGraph, roles: &Vec<ArchitectureRole>, feature: &mut Feature)
    requires
        roles@.len() == graph.nodes@.len(),
    ensures
        facets_hold(*graph, *final(feature)),
        final(feature).node_ids == old(feature).node_ids,
        final(feature).completeness_permille == spec_completeness(*graph, roles@, *final(feature)),
        views(final(feature).missing_signals@) == spec_missing_signals(*graph, roles@, *final(feature)),
        *final(feature) == (Feature {
            completeness_permille: final(feature).completeness_permille,
            missing_signals: final(feature).missing_signals,
            routes: final(feature).routes,
            pages: final(feature).pages,
            services: final(feature).services,
            repositories: final(feature).repositories,
            models: final(feature).models,
            entities: final(feature).entities,
            templates: final(feature).templates,
            tests: final(feature).tests,
            ..*old(feature)
        }),
{
    set_facets(graph, feature);
    let ghost mid = *feature;
    refresh_feature_completeness(graph, roles, feature);
    proof {
        lemma_facets_same_fields(*graph, mid, *feature);
        assert(feature_signals(*graph, roles@, *feature) == feature_signals(*graph, roles@, mid));
    }
}

// ---------------------------------------------------------------------------
// Candidate entry points
// ---------------------------------------------------------------------------

/// A path that may anchor a feature: not under tests, fixtures, vendored or built code, and
/// not documentation (judged on its lowercase form with `/` separators).
pub open spec fn root_path_ok(path: Seq<char>) -> bool {
    let p = spec_replace_char(spec_to_lowercase(path), '\\', '/');
    &&& !seq_contains(p, "/tests/"@)
    &&& !seq_starts_with(p, "tests/"@)
    &&& !seq_contains(p, "/test/"@)
    &&& !seq_contains(p, "/fixtures/"@)
    &&& !seq_ends_with(p, ".md"@)
    &&& !seq_ends_with(p, ".markdown"@)
    &&& !seq_contains(p, "/vendor/"@)
    &&& !seq_contains(p, "/node_modules/"@)
    &&& !seq_contains(p, "/build/"@)
}

/// A node that anchors a candidate feature: a first-party entry point (route, page,
/// command, worker, event...) that is not a generic catch-all route, in a regular source
/// path.
pub open spec fn candidate_root(n: CodeNode) -> bool {
    &&& n.source_scope.spec_library_eligible()
    &&& spec_feature_root(n.kind)
    &&& !(seq_starts_with(n.name@, "ANY /"@) && (seq_contains(n.name@, "{0}"@) || seq_contains(n.name@, "{1}"@)))
    &&& match n.path {
        Some(p) => root_path_ok(p@),
        None => true,
    }
}

fn path_ok(path: &str) -> (res: bool)
    ensures
        res == root_path_ok(path@),
{
    let lower = to_lowercase(path);
    let p = replace_char(&chars_of(lower.as_str()), '\\', '/');
    !contains(&p, &chars_of("/tests/")) && !starts_with(&p, &chars_of("tests/")) && !contains(&p, &chars_of("/test/"))
        && !contains(&p, &chars_of("/fixtures/")) && !ends_with(&p, &chars_of(".md"))
        && !ends_with(&p, &chars_of(".markdown")) && !contains(&p, &chars_of("/vendor/"))
        && !contains(&p, &chars_of("/node_modules/")) && !contains(&p, &chars_of("/build/"))
}

/// Whether the node anchors a candidate feature.
pub fn is_candidate_root(n: &CodeNode) -> (res: bool)
    ensures
        res == candidate_root(*n),
{
    if !n.source_scope.library_eligible() || !feature_root(n.kind) {
        return false;
    }
    let name = chars_of(n.name.as_str());
    if starts_with(&name, &chars_of("ANY /")) && (contains(&name, &chars_of("{0}")) || contains(&name, &chars_of("{1}"))) {
        return false;
    }
    match &n.path {
        Some(p) => path_ok(p.as_str()),
        None => true,
    }
}

// ---------------------------------------------------------------------------
// Growing a candidate from its entry point
// ---------------------------------------------------------------------------

/// Every node carries an id of its own.
pub open spec fn unique_node_ids(g: ProjectGraph) -> bool {
    forall|i: int, j: int| 0 <= i < j < g.nodes@.len() ==> g.nodes@[i].id@ != g.nodes@[j].id@
}

/// `i` is the first node carrying its id.
pub open spec fn canonical(g: ProjectGraph, i: int) -> bool {
    first_node_with_id(g.nodes@, g.nodes@[i].id@, i)
}

proof fn lemma_unique_canonical(g: ProjectGraph, i: int)
    requires
        unique_node_ids(g),
        0 <= i < g.nodes@.len(),
    ensures
        canonical(g, i),
        g.node_index(g.nodes@[i].id@) == i,
        g.has_node(g.nodes@[i].id@),
{
    assert forall|j: int| 0 <= j < i implies g.nodes@[j].id@ != g.nodes@[i].id@ by {}
    lemma_first_node_unique(g.nodes@, g.nodes@[i].id@, i);
}

/// The slack of the scores: how far each one is from 100 (101 for a node not reached).
pub open spec fn slack(best: Seq<i32>) -> int
    decreases best.len(),
{
    if best.len() == 0 { 0 } else { slack(best.drop_last()) + (100 - best.last()) }
}

/// How many nodes have been reached.
pub open spec fn reached_count(best: Seq<i32>) -> int
    decreases best.len(),
{
    if best.len() == 0 { 0 } else { reached_count(best.drop_last()) + if best.last() >= 0 { 1int } else { 0int } }
}

proof fn lemma_slack_update(best: Seq<i32>, i: int, v: i32)
    requires
        0 <= i < best.len(),
    ensures
        slack(best.update(i, v)) == slack(best) - (v - best[i]),
        reached_count(best.update(i, v)) == reached_count(best) + (if v >= 0 { 1int } else { 0int })
            - (if best[i] >= 0 { 1int } else { 0int }),
    decreases best.len(),
{
    if i < best.len() - 1 {
        assert(best.update(i, v).drop_last() =~= best.drop_last().update(i, v));
        lemma_slack_update(best.drop_last(), i, v);
    } else {
        assert(best.update(i, v).drop_last() =~= best.drop_last());
    }
}

proof fn lemma_slack_bounds(best: Seq<i32>)
    requires
        forall|i: int| 0 <= i < best.len() ==> -1 <= #[trigger] best[i] <= 100,
    ensures
        0 <= slack(best),
        0 <= reached_count(best) <= best.len(),
    decreases best.len(),
{
    if best.len() > 0 {
        lemma_slack_bounds(best.drop_last());
    }
}

/// What the growth of one candidate has found: each node's score (negative when not
/// reached) and reason, the edges followed, the external services met, and how many nodes
/// were reached.
pub struct Growth {
    pub best: Vec<i32>,
    pub reasons: Vec<String>,
    pub edges: Vec<String>,
    pub externals: Vec<String>,
    pub count: usize,
}

/// What the growth keeps true: reached nodes are first carriers of their ids, first-party
/// when ids are unique, and include `r`, the first node carrying the entry point's id; the
/// edges followed exist.
pub open spec fn growth_inv(g: ProjectGraph, r: int, gr: Growth) -> bool {
    &&& gr.best@.len() == g.nodes@.len()
    &&& gr.reasons@.len() == g.nodes@.len()
    &&& gr.count == reached_count(gr.best@)
    &&& forall|i: int| 0 <= i < gr.best@.len() ==> -1 <= #[trigger] gr.best@[i] <= 100
    &&& forall|i: int| 0 <= i < gr.best@.len() && #[trigger] gr.best@[i] >= 0 ==> canonical(g, i)
    &&& forall|i: int| 0 <= i < gr.best@.len() && #[trigger] gr.best@[i] >= 0 && unique_node_ids(g)
        ==> g.nodes@[i].source_scope.spec_library_eligible()
    &&& 0 <= r < g.nodes@.len()
    &&& gr.best@[r] >= 0
    &&& strictly_sorted(views(gr.edges@))
    &&& forall|x: Seq<char>| #[trigger] views(gr.edges@).contains(x) ==> edge_known(g, x)
    &&& strictly_sorted(views(gr.externals@))
}

fn canonical_index(graph: &ProjectGraph, i: usize) -> (res: usize)
    requires
        i < graph.nodes@.len(),
    ensures
        res < graph.nodes@.len(),
        res == graph.node_index(graph.nodes@[i as int].id@),
        canonical(*graph, res as int),
        graph.nodes@[res as int].id@ == graph.nodes@[i as int].id@,
        unique_node_ids(*graph) ==> res == i,
{
    proof {
        assert(graph.has_node(graph.nodes@[i as int].id@));
        if unique_node_ids(*graph) {
            lemma_unique_canonical(*graph, i as int);
        }
    }
    match graph.find_node_index(graph.nodes[i].id.as_str()) {
        Some(c) => c,
        None => i,
    }
}

fn set_score(gr: &mut Growth, Ghost(g): Ghost<ProjectGraph>, Ghost(r): Ghost<int>, i: usize, score: i32, reason: String)
    requires
        growth_inv(g, r, *old(gr)),
        i < old(gr).best@.len(),
        0 <= score <= 100,
        canonical(g, i as int),
        unique_node_ids(g) ==> g.nodes@[i as int].source_scope.spec_library_eligible(),
    ensures
        growth_inv(g, r, *final(gr)),
        final(gr).best@ == old(gr).best@.update(i as int, score),
        final(gr).edges == old(gr).edges,
        final(gr).externals == old(gr).externals,
{
    let n = gr.best.len();
    let ghost updated = gr.best@.update(i as int, score);
    proof {
        lemma_slack_update(gr.best@, i as int, score);
        assert forall|j: int| 0 <= j < updated.len() implies -1 <= #[trigger] updated[j] <= 100 by {
            if j != i {
                assert(updated[j] == gr.best@[j]);
            }
        }
        lemma_slack_bounds(updated);
    }
    if gr.best[i] < 0 {
        gr.count = gr.count + 1;
    }
    gr.best.set(i, score);
    gr.reasons.set(i, reason);
    proof {
        assert(gr.best@ == updated);
        assert forall|j: int| 0 <= j < gr.best@.len() && #[trigger] gr.best@[j] >= 0 implies canonical(g, j) by {
            if j != i {
                assert(gr.best@[j] == old(gr).best@[j]);
            }
        }
        assert forall|j: int| 0 <= j < gr.best@.len() && #[trigger] gr.best@[j] >= 0 && unique_node_ids(g)
            implies g.nodes@[j].source_scope.spec_library_eligible() by {
            if j != i {
                assert(gr.best@[j] == old(gr).best@[j]);
            }
        }
        if r != i {
            assert(gr.best@[r] == old(gr).best@[r]);
        }
    }
}

fn lookup_score(best: &Vec<i32>, i: usize) -> (res: i32)
    requires
        i < best@.len(),
    ensures
        res == best@[i as int],
{
    best[i]
}

/// Queue entries: score, depth, node.
pub open spec fn queue_ok(queue: Seq<(i32, usize, usize)>, n: int) -> bool {
    forall|q: int| 0 <= q < queue.len() ==> 0 <= (#[trigger] queue[q]).0 <= 100 && queue[q].1 <= 10 && queue[q].2 < n
}

/// Entry `a` comes out of the queue before entry `b`: higher score, then greater depth, then
/// greater node id.
pub open spec fn spec_pops_before(nodes: Seq<CodeNode>, a: (i32, usize, usize), b: (i32, usize, usize)) -> bool {
    if a.0 != b.0 {
        a.0 > b.0
    } else if a.1 != b.1 {
        a.1 > b.1
    } else {
        seq_less(nodes[b.2 as int].id@, nodes[a.2 as int].id@)
    }
}

/// Entry `a` comes out of the queue before entry `b`: higher score, then greater depth, then
/// greater node id.
fn pops_before(graph: &ProjectGraph, a: (i32, usize, usize), b: (i32, usize, usize)) -> (res: bool)
    requires
        a.2 < graph.nodes@.len(),
        b.2 < graph.nodes@.len(),
    ensures
        res == spec_pops_before(graph.nodes@, a, b),
{
    if a.0 != b.0 {
        a.0 > b.0
    } else if a.1 != b.1 {
        a.1 > b.1
    } else {
        crate::text::str_less(graph.nodes[b.2].id.as_str(), graph.nodes[a.2].id.as_str())
    }
}

fn pop_best(queue: &mut Vec<(i32, usize, usize)>, graph: &ProjectGraph) -> (res: (i32, usize, usize))
    requires
        old(queue)@.len() > 0,
        queue_ok(old(queue)@, graph.nodes@.len() as int),
    ensures
        final(queue)@.len() == old(queue)@.len() - 1,
        queue_ok(final(queue)@, graph.nodes@.len() as int),
        0 <= res.0 <= 100,
        res.1 <= 10,
        res.2 < graph.nodes@.len(),
{
    let mut m: usize = 0;
    let mut q: usize = 1;
    while q < queue.len()
        invariant
            m < queue@.len(),
            1 <= q <= queue@.len(),
            queue_ok(queue@, graph.nodes@.len() as int),
        decreases queue.len() - q,
    {
        if pops_before(graph, queue[q], queue[m]) {
            m = q;
        }
        q = q + 1;
    }
    let top = queue.remove(m);
    proof {
        assert forall|j: int| 0 <= j < queue@.len() implies 0 <= (#[trigger] queue@[j]).0 <= 100 && queue@[j].1 <= 10
            && queue@[j].2 < graph.nodes@.len() by {
            if j < m {
                assert(queue@[j] == old(queue)@[j]);
            } else {
                assert(queue@[j] == old(queue)@[j + 1]);
            }
        }
    }
    top
}

fn same_text(a: &Option<String>, b: &Option<String>) -> (res: bool)
    ensures
        res == (a is Some && b is Some && a->0@ == b->0@),
{
    match (a, b) {
        (Some(x), Some(y)) => str_equal(x.as_str(), y.as_str()),
        _ => false,
    }
}

/// The parts, one after the other.
fn text_of(parts: &Vec<&str>) -> (res: String)
    ensures
        res@ == crate::text::spec_join(parts@.map_values(|p: &str| p@), Seq::empty()),
{
    let mut out: Vec<char> = Vec::new();
    let mut i: usize = 0;
    let ghost sep = Seq::<char>::empty();
    assert(parts@.subrange(0, 0).map_values(|p: &str| p@) =~= Seq::<Seq<char>>::empty());
    while i < parts.len()
        invariant
            i <= parts@.len(),
            sep == Seq::<char>::empty(),
            out@ == crate::text::spec_join(parts@.subrange(0, i as int).map_values(|p: &str| p@), sep),
        decreases parts.len() - i,
    {
        let ghost before = parts@.subrange(0, i as int).map_values(|p: &str| p@);
        let ghost after = parts@.subrange(0, i + 1).map_values(|p: &str| p@);
        append_chars(&mut out, &chars_of(parts[i]));
        proof {
            assert(after.drop_last() =~= before);
            assert(after.last() == parts@[i as int]@);
            if i == 0 {
                assert(after.len() == 1);
                assert(out@ =~= after[0]);
            } else {
                assert(out@ =~= crate::text::spec_join(before, sep) + sep + after.last());
            }
        }
        i = i + 1;
    }
    assert(parts@.subrange(0, parts@.len() as int) =~= parts@);
    string_of(&out)
}

fn initial_growth(graph: &ProjectGraph, r: usize, c: usize) -> (res: Growth)
    requires
        r < graph.nodes@.len(),
        c < graph.nodes@.len(),
        canonical(*graph, c as int),
        unique_node_ids(*graph) ==> c == r,
        graph.nodes@[r as int].source_scope.spec_library_eligible(),
    ensures
        growth_inv(*graph, c as int, res),
        res.best@[c as int] == 100,
{
    let n = graph.nodes.len();
    let mut best: Vec<i32> = Vec::new();
    let mut reasons: Vec<String> = Vec::new();
    let mut i: usize = 0;
    while i < n
        invariant
            n == graph.nodes@.len(),
            i <= n,
            best@.len() == i,
            reasons@.len() == i,
            forall|j: int| 0 <= j < i ==> #[trigger] best@[j] == -1,
            reached_count(best@) == 0,
        decreases n - i,
    {
        let ghost before = best@;
        best.push(-1);
        assert(best@.drop_last() =~= before);
        assert(best@.last() == -1);
        reasons.push(String::new());
        i = i + 1;
    }
    proof {
        lemma_slack_update(best@, c as int, 100);
    }
    best.set(c, 100);
    let root = &graph.nodes[r];
    let reason = text_of(&vec!["point d’entrée ", root.kind.as_str(), " détecté"]);
    reasons.set(c, reason);
    Growth { best, reasons, edges: Vec::new(), externals: Vec::new(), count: 1 }
}

fn add_edge(gr: &mut Growth, Ghost(g): Ghost<ProjectGraph>, Ghost(c): Ghost<int>, e: usize, graph: &ProjectGraph)
    requires
        g == *graph,
        growth_inv(g, c, *old(gr)),
        e < graph.edges@.len(),
    ensures
        growth_inv(g, c, *final(gr)),
        final(gr).best == old(gr).best,
        final(gr).reasons == old(gr).reasons,
        final(gr).externals == old(gr).externals,
        final(gr).count == old(gr).count,
        strictly_sorted(views(final(gr).edges@)),
        forall|x: Seq<char>| #[trigger] views(final(gr).edges@).contains(x) <==> (views(old(gr).edges@).contains(x)
            || x == graph.edges@[e as int].id@),
{
    let mut edges: Vec<String> = Vec::new();
    std::mem::swap(&mut edges, &mut gr.edges);
    let ghost before = views(edges@);
    insert_sorted_unique(&mut edges, graph.edges[e].id.clone());
    proof {
        assert forall|x: Seq<char>| #[trigger] views(edges@).contains(x) implies edge_known(g, x) by {
            if !before.contains(x) {
                assert(g.edges@[e as int].id@ == x);
            }
        }
    }
    gr.edges = edges;
}

fn add_external(gr: &mut Growth, Ghost(g): Ghost<ProjectGraph>, Ghost(c): Ghost<int>, name: String)
    requires
        growth_inv(g, c, *old(gr)),
    ensures
        growth_inv(g, c, *final(gr)),
        final(gr).best == old(gr).best,
{
    let mut externals: Vec<String> = Vec::new();
    std::mem::swap(&mut externals, &mut gr.externals);
    insert_sorted_unique(&mut externals, name);
    gr.externals = externals;
}

/// The growth of the candidate anchored on node `r`: a best-first expansion from the entry
/// point along followed relations, scores falling with each relation's cost and rising with
/// affinity (same file, same owner, same domain); `domains[i]` is the domain of node `i`.
fn expand(graph: &ProjectGraph, domains: &Vec<String>, r: usize, c: usize, gr: &mut Growth)
    requires
        r < graph.nodes@.len(),
        domains@.len() == graph.nodes@.len(),
        growth_inv(*graph, c as int, *old(gr)),
    ensures
        growth_inv(*graph, c as int, *final(gr)),
{
    let n = graph.nodes.len();
    let root = &graph.nodes[r];
    let mut queue: Vec<(i32, usize, usize)> = Vec::new();
    queue.push((100, 0, c));
    proof {
        lemma_slack_bounds(gr.best@);
    }
    while queue.len() > 0
        invariant
            n == graph.nodes@.len(),
            r < n,
            domains@.len() == n,
            growth_inv(*graph, c as int, *gr),
            queue_ok(queue@, n as int),
            0 <= slack(gr.best@),
        decreases 2 * slack(gr.best@) + queue@.len(),
    {
        let ghost m0 = 2 * slack(gr.best@) + queue@.len();
        let (score, depth, idx) = pop_best(&mut queue, graph);
        if score < 35 || depth >= 10 || gr.count >= 120 {
            continue;
        }
        let outgoing = graph.outgoing_edges(graph.nodes[idx].id.as_str());
        let mut k: usize = 0;
        proof {
            lemma_slack_bounds(gr.best@);
        }
        while k < outgoing.len()
            invariant
                n == graph.nodes@.len(),
                r < n,
                idx < n,
                35 <= score <= 100,
                depth < 10,
                domains@.len() == n,
                growth_inv(*graph, c as int, *gr),
                queue_ok(queue@, n as int),
                2 * slack(gr.best@) + queue@.len() < m0,
                k <= outgoing@.len(),
                forall|q: int| 0 <= q < outgoing@.len() ==> outgoing@[q] < graph.edges@.len(),
            decreases outgoing.len() - k,
        {
            let e = outgoing[k];
            let edge = &graph.edges[e];
            match feature_relation_cost(edge.relation) {
                None => {},
                Some(cost) => {
                    proof {
                        assert(5 <= cost <= 28);
                    }
                    match graph.find_node_index(edge.target_id.as_str()) {
                        None => {},
                        Some(t) => {
                            let target = &graph.nodes[t];
                            if !target.source_scope.library_eligible() {
                                if target.kind == NodeKind::ExternalService || target.kind == NodeKind::Package
                                    || target.kind == NodeKind::Crate {
                                    add_external(gr, Ghost(*graph), Ghost(c as int), target.name.clone());
                                }
                            } else {
                                let same_file = root.path.is_some() && same_text(&root.path, &target.path);
                                let same_owner = root.owner.is_some() && same_text(&root.owner, &target.owner);
                                let same_domain = str_equal(domains[t].as_str(), domains[r].as_str());
                                let bonus: i32 = (if same_file { 8 } else { 0 }) + (if same_owner { 5 } else { 0 })
                                    + (if same_domain { 6 } else { 0 });
                                let raw = score - cost + bonus;
                                let next = if raw < 99 { raw } else { 99 };
                                if next >= 35 {
                                    let previous = lookup_score(&gr.best, t);
                                    if previous < 0 || next > previous {
                                        let relation = to_lowercase(edge.relation.as_str());
                                        let reason = text_of(&vec![
                                            relation.as_str(),
                                            " depuis ",
                                            graph.nodes[idx].name.as_str(),
                                            " via ",
                                            edge.id.as_str(),
                                        ]);
                                        proof {
                                            lemma_slack_update(gr.best@, t as int, next);
                                        }
                                        set_score(gr, Ghost(*graph), Ghost(c as int), t, next, reason);
                                        add_edge(gr, Ghost(*graph), Ghost(c as int), e, graph);
                                        queue.push((next, depth + 1, t));
                                        proof {
                                            lemma_slack_bounds(gr.best@);
                                        }
                                    }
                                }
                            }
                        },
                    }
                },
            }
            k = k + 1;
        }
        proof {
            lemma_slack_bounds(gr.best@);
        }
    }
}

/// A kind of code symbol a candidate may take in from its entry point's file.
pub open spec fn symbol_kind(kind: NodeKind) -> bool {
    match kind {
        NodeKind::Function | NodeKind::Method | NodeKind::Component | NodeKind::Handler | NodeKind::Service
        | NodeKind::Controller => true,
        _ => false,
    }
}

/// A first-party symbol of the file.
pub open spec fn same_file_symbol(n: CodeNode, path: Seq<char>) -> bool {
    (n.path matches Some(p) && p@ == path) && n.source_scope.spec_library_eligible() && symbol_kind(n.kind)
}

/// The scores after the first `n` nodes were looked at, and how many were taken: each of
/// the first 20 first-party symbols of the file scores 55 (on the node carrying its id).
pub open spec fn same_file_state(g: ProjectGraph, best: Seq<i32>, path: Seq<char>, n: int) -> (Seq<i32>, int)
    decreases n,
{
    if n <= 0 {
        (best, 0)
    } else {
        let st = same_file_state(g, best, path, n - 1);
        if st.1 < 20 && same_file_symbol(g.nodes@[n - 1], path) {
            (st.0.update(g.node_index(g.nodes@[n - 1].id@), 55), st.1 + 1)
        } else {
            st
        }
    }
}

proof fn lemma_same_file_full(g: ProjectGraph, best: Seq<i32>, path: Seq<char>, j: int, n: int)
    requires
        0 <= j <= n,
        same_file_state(g, best, path, j).1 >= 20,
    ensures
        same_file_state(g, best, path, n) == same_file_state(g, best, path, j),
    decreases n - j,
{
    if n > j {
        lemma_same_file_full(g, best, path, j, n - 1);
    }
}

fn is_symbol_kind(kind: NodeKind) -> (res: bool)
    ensures
        res == symbol_kind(kind),
{
    match kind {
        NodeKind::Function | NodeKind::Method | NodeKind::Component | NodeKind::Handler | NodeKind::Service
        | NodeKind::Controller => true,
        _ => false,
    }
}

/// A candidate that reached nothing but its entry point takes in up to 20 first-party
/// symbols of the entry point's file.
fn same_file_members(graph: &ProjectGraph, r: usize, c: usize, gr: &mut Growth)
    requires
        r < graph.nodes@.len(),
        growth_inv(*graph, c as int, *old(gr)),
    ensures
        growth_inv(*graph, c as int, *final(gr)),
        old(gr).count != 1 || graph.nodes@[r as int].path is None ==> *final(gr) == *old(gr),
        old(gr).count == 1 && graph.nodes@[r as int].path is Some ==> {
            &&& final(gr).best@ == same_file_state(
                *graph,
                old(gr).best@,
                graph.nodes@[r as int].path->0@,
                graph.nodes@.len() as int,
            ).0
            &&& final(gr).edges == old(gr).edges
            &&& final(gr).externals == old(gr).externals
        },
{
    if gr.count != 1 {
        return;
    }
    let root = &graph.nodes[r];
    match &root.path {
        None => {},
        Some(path) => {
            let n = graph.nodes.len();
            let mut taken: usize = 0;
            let mut j: usize = 0;
            while j < n && taken < 20
                invariant
                    n == graph.nodes@.len(),
                    j <= n,
                    growth_inv(*graph, c as int, *gr),
                    (gr.best@, taken as int) == same_file_state(*graph, old(gr).best@, path@, j as int),
                    gr.edges == old(gr).edges,
                    gr.externals == old(gr).externals,
                decreases n - j,
            {
                let node = &graph.nodes[j];
                let same = match &node.path {
                    Some(p) => str_equal(p.as_str(), path.as_str()),
                    None => false,
                };
                if same && node.source_scope.library_eligible() && is_symbol_kind(node.kind) {
                    let cj = canonical_index(graph, j);
                    let reason = text_of(&vec!["symbole first-party du même fichier que ", root.name.as_str()]);
                    set_score(gr, Ghost(*graph), Ghost(c as int), cj, 55, reason);
                    taken = taken + 1;
                }
                j = j + 1;
            }
            proof {
                if j < n {
                    lemma_same_file_full(*graph, old(gr).best@, path@, j as int, n as int);
                }
            }
        },
    }
}

/// The edge is a call or use of a selected node of the graph.
pub open spec fn covers_selected(g: ProjectGraph, sel: Seq<bool>, e: int) -> bool {
    (g.edges@[e].relation == RelationKind::Calls || g.edges@[e].relation == RelationKind::Uses) && g.has_node(
        g.edges@[e].target_id@,
    ) && sel[g.node_index(g.edges@[e].target_id@)]
}

/// `e` is the first edge from the node `id` that covers a selected node.
pub open spec fn first_cover(g: ProjectGraph, sel: Seq<bool>, id: Seq<char>, e: int) -> bool {
    &&& 0 <= e < g.edges@.len()
    &&& g.edges@[e].source_id@ == id
    &&& covers_selected(g, sel, e)
    &&& forall|e2: int| 0 <= e2 < e && g.edges@[e2].source_id@ == id ==> !covers_selected(g, sel, e2)
}

/// Some edge from the node `id` covers a selected node.
pub open spec fn has_cover(g: ProjectGraph, sel: Seq<bool>, id: Seq<char>) -> bool {
    exists|e: int| 0 <= e < g.edges@.len() && g.edges@[e].source_id@ == id && #[trigger] covers_selected(g, sel, e)
}

/// A first-party node whose path names test code.
pub open spec fn test_node(n: CodeNode) -> bool {
    n.source_scope.spec_library_eligible() && (n.path matches Some(p) && crate::context_pack::test_like(p@))
}

/// The nodes reached before the tests join: those with a score.
pub open spec fn selected_nodes(best: Seq<i32>) -> Seq<bool> {
    Seq::new(best.len(), |i: int| best[i] >= 0)
}

/// The scores after the first `n` nodes were looked at: each test node covering a
/// selected node scores 62 (on the node carrying its id).
pub open spec fn covered_scores(g: ProjectGraph, sel: Seq<bool>, best: Seq<i32>, n: int) -> Seq<i32>
    decreases n,
{
    if n <= 0 {
        best
    } else {
        let r = covered_scores(g, sel, best, n - 1);
        if test_node(g.nodes@[n - 1]) && has_cover(g, sel, g.nodes@[n - 1].id@) {
            r.update(g.node_index(g.nodes@[n - 1].id@), 62)
        } else {
            r
        }
    }
}

/// `x` is the id of the first covering edge of one of the first `n` test nodes.
pub open spec fn cover_edge_id(g: ProjectGraph, sel: Seq<bool>, n: int, x: Seq<char>) -> bool {
    exists|j: int, e: int| 0 <= j < n && test_node(g.nodes@[j]) && #[trigger] first_cover(g, sel, g.nodes@[j].id@, e)
        && g.edges@[e].id@ == x
}

/// Tests are often callers rather than callees: a first-party test that calls or uses an
/// already selected member directly joins the candidate.
fn covering_tests(graph: &ProjectGraph, c: usize, gr: &mut Growth)
    requires
        growth_inv(*graph, c as int, *old(gr)),
    ensures
        growth_inv(*graph, c as int, *final(gr)),
        final(gr).best@ == covered_scores(
            *graph,
            selected_nodes(old(gr).best@),
            old(gr).best@,
            graph.nodes@.len() as int,
        ),
        final(gr).externals == old(gr).externals,
        forall|x: Seq<char>| #[trigger] views(final(gr).edges@).contains(x) <==> (views(old(gr).edges@).contains(x)
            || cover_edge_id(*graph, selected_nodes(old(gr).best@), graph.nodes@.len() as int, x)),
{
    let ghost sel = selected_nodes(old(gr).best@);
    let n = graph.nodes.len();
    let mut selected: Vec<bool> = Vec::new();
    let mut i: usize = 0;
    while i < n
        invariant
            n == graph.nodes@.len(),
            i <= n,
            selected@.len() == i,
            *gr == *old(gr),
            growth_inv(*graph, c as int, *gr),
            gr.best@.len() == n,
            sel == selected_nodes(old(gr).best@),
            forall|q: int| 0 <= q < i ==> selected@[q] == sel[q],
        decreases n - i,
    {
        selected.push(lookup_score(&gr.best, i) >= 0);
        i = i + 1;
    }
    assert(selected@ =~= sel);
    let mut j: usize = 0;
    while j < n
        invariant
            n == graph.nodes@.len(),
            j <= n,
            selected@.len() == n,
            selected@ == sel,
            growth_inv(*graph, c as int, *gr),
            gr.best@ == covered_scores(*graph, sel, old(gr).best@, j as int),
            gr.externals == old(gr).externals,
            forall|x: Seq<char>| #[trigger] views(gr.edges@).contains(x) <==> (views(old(gr).edges@).contains(x)
                || cover_edge_id(*graph, sel, j as int, x)),
        decreases n - j,
    {
        let ghost eb = views(gr.edges@);
        let node = &graph.nodes[j];
        let test_path = match &node.path {
            Some(p) => {
                let lower = to_lowercase(p.as_str());
                let l = chars_of(lower.as_str());
                contains(&l, &chars_of("test")) || contains(&l, &chars_of("spec"))
            },
            None => false,
        };
        let ghost id = graph.nodes@[j as int].id@;
        if node.source_scope.library_eligible() && test_path {
            let outgoing = graph.outgoing_edges(node.id.as_str());
            let mut found: Option<usize> = None;
            let mut k: usize = 0;
            while k < outgoing.len() && found.is_none()
                invariant
                    k <= outgoing@.len(),
                    selected@.len() == n,
                    selected@ == sel,
                    n == graph.nodes@.len(),
                    forall|q: int| 0 <= q < outgoing@.len() ==> outgoing@[q] < graph.edges@.len(),
                    forall|q: int| 0 <= q < outgoing@.len() ==> graph.edges@[outgoing@[q] as int].source_id@ == id,
                    forall|a: int, b: int| 0 <= a < b < outgoing@.len() ==> outgoing@[a] < outgoing@[b],
                    forall|e: int| 0 <= e < graph.edges@.len() && graph.edges@[e].source_id@ == id ==> outgoing@.contains(e as usize),
                    found is None ==> forall|q: int| 0 <= q < k ==> !covers_selected(*graph, sel, #[trigger] outgoing@[q] as int),
                    found matches Some(e) ==> e < graph.edges@.len() && first_cover(*graph, sel, id, e as int),
                decreases outgoing.len() - k,
            {
                let edge = &graph.edges[outgoing[k]];
                if edge.relation == RelationKind::Calls || edge.relation == RelationKind::Uses {
                    match graph.find_node_index(edge.target_id.as_str()) {
                        Some(t) => {
                            if selected[t] {
                                proof {
                                    let e = outgoing@[k as int] as int;
                                    assert(covers_selected(*graph, sel, e));
                                    assert forall|e2: int| 0 <= e2 < e && graph.edges@[e2].source_id@ == id implies !covers_selected(
                                        *graph,
                                        sel,
                                        e2,
                                    ) by {
                                        assert(graph.edges.len() == graph.edges@.len());
                                        let eu = e2 as usize;
                                        assert(eu as int == e2);
                                        assert(outgoing@.contains(eu));
                                        let jj = choose|jj: int| 0 <= jj < outgoing@.len() && outgoing@[jj] == eu;
                                        if jj >= k {
                                            if jj > k {
                                                assert(outgoing@[k as int] < outgoing@[jj]);
                                            }
                                        }
                                        assert(!covers_selected(*graph, sel, outgoing@[jj] as int));
                                    }
                                }
                                found = Some(outgoing[k]);
                            }
                        },
                        None => {},
                    }
                }
                k = k + 1;
            }
            proof {
                if found is None {
                    assert forall|e: int| 0 <= e < graph.edges@.len() && graph.edges@[e].source_id@ == id implies !#[trigger] covers_selected(
                        *graph,
                        sel,
                        e,
                    ) by {
                        assert(graph.edges.len() == graph.edges@.len());
                        let eu = e as usize;
                        assert(eu as int == e);
                        assert(outgoing@.contains(eu));
                        let jj = choose|jj: int| 0 <= jj < outgoing@.len() && outgoing@[jj] == eu;
                        assert(!covers_selected(*graph, sel, outgoing@[jj] as int));
                    }
                }
            }
            match found {
                Some(e) => {
                    let cj = canonical_index(graph, j);
                    let reason = text_of(&vec!["test first-party couvrant ", graph.edges[e].target_id.as_str()]);
                    set_score(gr, Ghost(*graph), Ghost(c as int), cj, 62, reason);
                    add_edge(gr, Ghost(*graph), Ghost(c as int), e, graph);
                    proof {
                        assert(has_cover(*graph, sel, id));
                        assert forall|x: Seq<char>| #[trigger] views(gr.edges@).contains(x) <==> (views(old(gr).edges@).contains(x)
                            || cover_edge_id(*graph, sel, j + 1, x)) by {
                            if cover_edge_id(*graph, sel, j + 1, x) {
                                let (j2, e2) = choose|j2: int, e2: int| 0 <= j2 < j + 1 && test_node(graph.nodes@[j2])
                                    && #[trigger] first_cover(*graph, sel, graph.nodes@[j2].id@, e2) && graph.edges@[e2].id@ == x;
                                if j2 < j {
                                    assert(cover_edge_id(*graph, sel, j as int, x));
                                } else {
                                    if e2 != e {
                                        if e2 < e {
                                            assert(!covers_selected(*graph, sel, e2));
                                        } else {
                                            assert(!covers_selected(*graph, sel, e as int));
                                        }
                                    }
                                }
                            }
                            if cover_edge_id(*graph, sel, j as int, x) {
                                let (j2, e2) = choose|j2: int, e2: int| 0 <= j2 < j && test_node(graph.nodes@[j2])
                                    && #[trigger] first_cover(*graph, sel, graph.nodes@[j2].id@, e2) && graph.edges@[e2].id@ == x;
                                assert(cover_edge_id(*graph, sel, j + 1, x));
                            }
                            if x == graph.edges@[e as int].id@ {
                                assert(first_cover(*graph, sel, graph.nodes@[j as int].id@, e as int));
                                assert(cover_edge_id(*graph, sel, j + 1, x));
                            }
                        }
                    }
                },
                None => {
                    proof {
                        assert(!has_cover(*graph, sel, id));
                        assert forall|x: Seq<char>| #[trigger] views(gr.edges@).contains(x) <==> (views(old(gr).edges@).contains(x)
                            || cover_edge_id(*graph, sel, j + 1, x)) by {
                            if cover_edge_id(*graph, sel, j + 1, x) {
                                let (j2, e2) = choose|j2: int, e2: int| 0 <= j2 < j + 1 && test_node(graph.nodes@[j2])
                                    && #[trigger] first_cover(*graph, sel, graph.nodes@[j2].id@, e2) && graph.edges@[e2].id@ == x;
                                if j2 < j {
                                    assert(cover_edge_id(*graph, sel, j as int, x));
                                }
                            }
                            if cover_edge_id(*graph, sel, j as int, x) {
                                let (j2, e2) = choose|j2: int, e2: int| 0 <= j2 < j && test_node(graph.nodes@[j2])
                                    && #[trigger] first_cover(*graph, sel, graph.nodes@[j2].id@, e2) && graph.edges@[e2].id@ == x;
                                assert(cover_edge_id(*graph, sel, j + 1, x));
                            }
                        }
                    }
                },
            }
        } else {
            proof {
                assert forall|x: Seq<char>| #[trigger] views(gr.edges@).contains(x) <==> (views(old(gr).edges@).contains(x)
                    || cover_edge_id(*graph, sel, j + 1, x)) by {
                    if cover_edge_id(*graph, sel, j + 1, x) {
                        let (j2, e2) = choose|j2: int, e2: int| 0 <= j2 < j + 1 && test_node(graph.nodes@[j2])
                            && #[trigger] first_cover(*graph, sel, graph.nodes@[j2].id@, e2) && graph.edges@[e2].id@ == x;
                        if j2 < j {
                            assert(cover_edge_id(*graph, sel, j as int, x));
                        }
                    }
                    if cover_edge_id(*graph, sel, j as int, x) {
                        let (j2, e2) = choose|j2: int, e2: int| 0 <= j2 < j && test_node(graph.nodes@[j2])
                            && #[trigger] first_cover(*graph, sel, graph.nodes@[j2].id@, e2) && graph.edges@[e2].id@ == x;
                        assert(cover_edge_id(*graph, sel, j + 1, x));
                    }
                }
            }
        }
        j = j + 1;
    }
}

// ---------------------------------------------------------------------------
// Assembling candidates
// ---------------------------------------------------------------------------

/// What detection guarantees of a feature: entry points that anchor candidates and are
/// members; members that are nodes of the graph, first-party when ids are unique; edges of
/// the graph.
pub open spec fn feature_sound(g: ProjectGraph, f: Feature) -> bool {
    &&& f.entry_point_node_ids@.len() > 0
    &&& forall|k: int| 0 <= k < f.entry_point_node_ids@.len() ==> id_listed(f.node_ids@, #[trigger] f.entry_point_node_ids@[k]@)
        && exists|i: int| 0 <= i < g.nodes@.len() && candidate_root(g.nodes@[i]) && g.nodes@[i].id@ == f.entry_point_node_ids@[k]@
    &&& forall|k: int| 0 <= k < f.node_ids@.len() ==> g.has_node(#[trigger] f.node_ids@[k]@)
        && (unique_node_ids(g) ==> g.nodes@[g.node_index(f.node_ids@[k]@)].source_scope.spec_library_eligible())
    &&& forall|k: int| 0 <= k < f.edge_ids@.len() ==> edge_known(g, #[trigger] f.edge_ids@[k]@)
    &&& f.ai_provider is None
}

/// A sound feature passes validation when node ids are unique.
pub proof fn lemma_sound_features_are_valid(g: ProjectGraph, f: Feature)
    requires
        unique_node_ids(g),
        feature_sound(g, f),
    ensures
        spec_feature_valid(g, f),
{
}

/// `x` is the id of a reached node.
pub open spec fn reached_id(g: ProjectGraph, best: Seq<i32>, x: Seq<char>) -> bool {
    exists|i: int| 0 <= i < best.len() && best[i] >= 0 && #[trigger] g.nodes@[i].id@ == x
}

fn member_ids(graph: &ProjectGraph, gr: &Growth, Ghost(c): Ghost<int>) -> (res: Vec<String>)
    requires
        growth_inv(*graph, c, *gr),
    ensures
        strictly_sorted(views(res@)),
        forall|x: Seq<char>| #[trigger] views(res@).contains(x) <==> reached_id(*graph, gr.best@, x),
{
    let n = graph.nodes.len();
    let mut out: Vec<String> = Vec::new();
    let mut i: usize = 0;
    while i < n
        invariant
            n == graph.nodes@.len(),
            i <= n,
            growth_inv(*graph, c, *gr),
            strictly_sorted(views(out@)),
            forall|x: Seq<char>| #[trigger] views(out@).contains(x) <==> reached_id(*graph, gr.best@.subrange(0, i as int), x),
        decreases n - i,
    {
        let ghost before = views(out@);
        if lookup_score(&gr.best, i) >= 0 {
            insert_sorted_unique(&mut out, graph.nodes[i].id.clone());
        }
        proof {
            let pre = gr.best@.subrange(0, i as int);
            let post = gr.best@.subrange(0, i + 1);
            assert forall|x: Seq<char>| #[trigger] views(out@).contains(x) <==> reached_id(*graph, post, x) by {
                if reached_id(*graph, post, x) {
                    let j = choose|j: int| 0 <= j < post.len() && post[j] >= 0 && #[trigger] graph.nodes@[j].id@ == x;
                    if j < i {
                        assert(pre[j] == post[j]);
                        assert(reached_id(*graph, pre, x));
                    }
                }
                if before.contains(x) {
                    let j = choose|j: int| 0 <= j < pre.len() && pre[j] >= 0 && #[trigger] graph.nodes@[j].id@ == x;
                    assert(post[j] == pre[j]);
                }
                if views(out@).contains(x) && !before.contains(x) {
                    assert(post[i as int] >= 0 && graph.nodes@[i as int].id@ == x);
                }
            }
        }
        i = i + 1;
    }
    assert(gr.best@.subrange(0, n as int) =~= gr.best@);
    out
}

fn memberships_of(graph: &ProjectGraph, gr: &Growth, ids: &Vec<String>, Ghost(c): Ghost<int>) -> (res: Vec<FeatureMembership>)
    requires
        growth_inv(*graph, c, *gr),
    ensures
        res@.len() == ids@.len(),
        forall|k: int| 0 <= k < ids@.len() ==> (#[trigger] res@[k]).node_id == ids@[k],
{
    let mut out: Vec<FeatureMembership> = Vec::new();
    let mut k: usize = 0;
    while k < ids.len()
        invariant
            k <= ids@.len(),
            growth_inv(*graph, c, *gr),
            out@.len() == k,
            forall|q: int| 0 <= q < k ==> (#[trigger] out@[q]).node_id == ids@[q],
        decreases ids.len() - k,
    {
        let (score, reason) = match graph.find_node_index(ids[k].as_str()) {
            Some(i) => (lookup_score(&gr.best, i), gr.reasons[i].clone()),
            None => (50, String::from_str("relation déterministe persistée")),
        };
        let confidence: u32 = if score >= 0 && score <= 100 { (score as u32) * 10 } else { 500 };
        out.push(FeatureMembership {
            node_id: ids[k].clone(),
            confidence_permille: confidence,
            reason,
            source: MembershipSource::Deterministic,
            optional: false,
            external_dependency: false,
        });
        k = k + 1;
    }
    out
}

pub(crate) fn joined_ids(a: &Vec<String>, b: &Vec<String>) -> (res: Vec<String>)
    ensures
        res@ == a@ + b@,
{
    let mut out = crate::text::copy_strings(a);
    let mut k: usize = 0;
    while k < b.len()
        invariant
            k <= b@.len(),
            out@ == a@ + b@.subrange(0, k as int),
        decreases b.len() - k,
    {
        out.push(b[k].clone());
        assert(out@ =~= a@ + b@.subrange(0, k + 1));
        k = k + 1;
    }
    assert(b@.subrange(0, b@.len() as int) =~= b@);
    out
}

/// `feature:` and the first 24 characters of a digest.
pub open spec fn feature_id_of(digest: Seq<char>) -> Seq<char> {
    "feature:"@ + digest.subrange(0, if digest.len() < 24 { digest.len() as int } else { 24 })
}

/// The feature id of a candidate: `feature:` and the first 24 hexadecimal digits of the
/// hash of the project and entry point ids.
fn candidate_id(project_id: &str, root_id: &String) -> (res: String)
    ensures
        res@ == feature_id_of(crate::hashing::spec_stable_hash(seq![project_id@, root_id@])),
{
    let parts = vec![String::from_str(project_id), root_id.clone()];
    assert(parts@.map_values(|p: String| p@) =~= seq![project_id@, root_id@]);
    let digest = stable_hash(&parts);
    let d = chars_of(digest.as_str());
    let mut out = chars_of("feature:");
    let cut: usize = if d.len() < 24 { d.len() } else { 24 };
    append_chars(&mut out, &crate::text::slice_chars(&d, 0, cut));
    string_of(&out)
}

/// The candidate feature anchored on node `r`.
fn candidate_feature(
    project_id: &str,
    graph: &ProjectGraph,
    roles: &Vec<ArchitectureRole>,
    domains: &Vec<String>,
    r: usize,
    now: i64,
) -> (res: Feature)
    requires
        r < graph.nodes@.len(),
        roles@.len() == graph.nodes@.len(),
        domains@.len() == graph.nodes@.len(),
        candidate_root(graph.nodes@[r as int]),
    ensures
        feature_sound(*graph, res),
        res.entry_point_node_ids@.len() == 1,
        res.entry_point_node_ids@[0]@ == graph.nodes@[r as int].id@,
        res.project_id@ == project_id@,
        res.status == FeatureStatus::Detected,
        strictly_sorted(views(res.node_ids@)),
        strictly_sorted(views(res.edge_ids@)),
{
    let c = canonical_index(graph, r);
    let mut gr = initial_growth(graph, r, c);
    expand(graph, domains, r, c, &mut gr);
    same_file_members(graph, r, c, &mut gr);
    covering_tests(graph, c, &mut gr);
    let root = &graph.nodes[r];
    let nodes = member_ids(graph, &gr, Ghost(c as int));
    let edges = crate::text::copy_strings(&gr.edges);
    let memberships = memberships_of(graph, &gr, &nodes, Ghost(c as int));
    let source_hash = stable_hash(&joined_ids(&nodes, &edges));
    let taken: u32 = if nodes.len() < 30 { nodes.len() as u32 } else { 30 };
    let confidence: u32 = if 550 + 10 * taken < 850 { 550 + 10 * taken } else { 850 };
    let k1 = vec![NodeKind::Route, NodeKind::ApiEndpoint];
    let k2 = vec![NodeKind::Page, NodeKind::Component];
    let k3 = vec![NodeKind::Service, NodeKind::Handler, NodeKind::Controller];
    let k4 = vec![NodeKind::Repository];
    let k5 = vec![NodeKind::Model];
    let k6 = vec![NodeKind::Entity];
    let k7 = vec![NodeKind::Template];
    let mut entry: Vec<String> = Vec::new();
    entry.push(root.id.clone());
    let mut feature = Feature {
        id: candidate_id(project_id, &root.id),
        project_id: String::from_str(project_id),
        name: feature_name(root),
        description: text_of(&vec!["Flux fonctionnel candidat ancré sur ", root.kind.as_str(), " ", root.name.as_str(), "."]),
        confidence_permille: confidence,
        completeness_permille: 0,
        missing_signals: Vec::new(),
        status: FeatureStatus::Detected,
        entry_point_node_ids: entry,
        routes: names(graph, &nodes, &k1),
        pages: names(graph, &nodes, &k2),
        services: names(graph, &nodes, &k3),
        repositories: names(graph, &nodes, &k4),
        models: names(graph, &nodes, &k5),
        entities: names(graph, &nodes, &k6),
        templates: names(graph, &nodes, &k7),
        tests: test_members(graph, &nodes),
        external_services: crate::text::copy_strings(&gr.externals),
        node_ids: nodes,
        edge_ids: edges,
        memberships,
        business_rules: Vec::new(),
        inputs: Vec::new(),
        outputs: Vec::new(),
        side_effects: Vec::new(),
        security_constraints: Vec::new(),
        source_hash,
        ai_provider: None,
        ai_model: None,
        prompt_version: String::from_str("feature-deterministic-v2"),
        created_at: now,
        updated_at: now,
    };
    proof {
        let f = feature;
        assert(reached_id(*graph, gr.best@, graph.nodes@[c as int].id@));
        assert(views(f.node_ids@).contains(graph.nodes@[r as int].id@));
        let j = choose|j: int| 0 <= j < views(f.node_ids@).len() && views(f.node_ids@)[j] == graph.nodes@[r as int].id@;
        assert(f.node_ids@[j]@ == graph.nodes@[r as int].id@);
        assert(id_listed(f.node_ids@, f.entry_point_node_ids@[0]@));
        assert forall|k: int| 0 <= k < f.node_ids@.len() implies graph.has_node(#[trigger] f.node_ids@[k]@)
            && (unique_node_ids(*graph) ==> graph.nodes@[graph.node_index(f.node_ids@[k]@)].source_scope.spec_library_eligible()) by {
            assert(views(f.node_ids@)[k] == f.node_ids@[k]@);
            assert(views(f.node_ids@).contains(f.node_ids@[k]@));
            let i = choose|i: int| 0 <= i < gr.best@.len() && gr.best@[i] >= 0 && #[trigger] graph.nodes@[i].id@ == f.node_ids@[k]@;
            assert(canonical(*graph, i));
            lemma_first_node_unique(graph.nodes@, f.node_ids@[k]@, i);
        }
        assert forall|k: int| 0 <= k < f.edge_ids@.len() implies edge_known(*graph, #[trigger] f.edge_ids@[k]@) by {
            assert(views(f.edge_ids@)[k] == f.edge_ids@[k]@);
            assert(views(gr.edges@).contains(f.edge_ids@[k]@));
        }
    }
    refresh_feature_completeness(graph, roles, &mut feature);
    feature
}

// ---------------------------------------------------------------------------
// Route families
// ---------------------------------------------------------------------------

/// `s` without its trailing whitespace.
pub open spec fn strip_trailing_ws(s: Seq<char>) -> Seq<char>
    decreases s.len(),
{
    if s.len() > 0 && crate::text::is_ws(s.last()) { strip_trailing_ws(s.drop_last()) } else { s }
}

/// The run of non-whitespace characters that ends `s`.
pub open spec fn final_run(s: Seq<char>) -> Seq<char>
    decreases s.len(),
{
    if s.len() > 0 && !crate::text::is_ws(s.last()) { final_run(s.drop_last()).push(s.last()) } else { Seq::empty() }
}

/// The last word of a route (its path), or the whole route when it has no word.
pub open spec fn route_path(route: Seq<char>) -> Seq<char> {
    let w = final_run(strip_trailing_ws(route));
    if w.len() > 0 { w } else { route }
}

/// The family a route path belongs to, with its label.
pub open spec fn spec_route_family(path: Seq<char>) -> Option<(Seq<char>, Seq<char>)> {
    if seq_contains(path, "/api/mcp"@) {
        Some(("mcp"@, "Serveur MCP"@))
    } else if seq_contains(path, "/api/fs/"@) {
        Some(("project-selection"@, "Sélection de projet"@))
    } else if seq_contains(path, "/api/library"@) || seq_contains(path, "library-candidates"@) {
        Some(("library"@, "Bibliothèque de code"@))
    } else if seq_contains(path, "/api/findings"@) || seq_contains(path, "/quality"@) || seq_contains(path, "/security"@) {
        Some(("quality-security"@, "Qualité et sécurité"@))
    } else if seq_contains(path, "/features/"@) && seq_contains(path, "/port/"@) {
        Some(("feature-porting"@, "Portage de Feature"@))
    } else if seq_contains(path, "/features"@) {
        Some(("feature-intelligence"@, "Intelligence des Features"@))
    } else if seq_contains(path, "/docs"@) {
        Some(("documentation"@, "Documentation projet"@))
    } else if seq_contains(path, "/nodes"@) || seq_contains(path, "/search"@) || seq_contains(path, "/impact"@)
        || seq_contains(path, "/context"@) || seq_contains(path, "/ai/query"@) {
        Some(("code-exploration"@, "Exploration et impact du code"@))
    } else if seq_contains(path, "/api/projects"@) {
        Some(("project-registry"@, "Registre et analyse des projets"@))
    } else if seq_contains(path, "/api/events"@) {
        Some(("live-events"@, "Suivi d’analyse en temps réel"@))
    } else {
        None
    }
}

/// The family of a feature: that of the path of its first route (lowercase), if any.
pub open spec fn feature_family(f: Feature) -> Option<(Seq<char>, Seq<char>)> {
    if f.routes@.len() == 0 { None } else { spec_route_family(route_path(spec_to_lowercase(f.routes@[0]@))) }
}

fn last_word(s: &Vec<char>) -> (res: Vec<char>)
    ensures
        res@ == route_path(s@),
{
    let mut end = s.len();
    assert(s@.subrange(0, end as int) =~= s@);
    while end > 0 && crate::text::is_whitespace(s[end - 1])
        invariant
            end <= s@.len(),
            strip_trailing_ws(s@) == strip_trailing_ws(s@.subrange(0, end as int)),
        decreases end,
    {
        assert(s@.subrange(0, end - 1) =~= s@.subrange(0, end as int).drop_last());
        end = end - 1;
    }
    assert(strip_trailing_ws(s@.subrange(0, end as int)) == s@.subrange(0, end as int));
    let mut start = end;
    while start > 0 && !crate::text::is_whitespace(s[start - 1])
        invariant
            start <= end <= s@.len(),
            final_run(s@.subrange(0, end as int)) == final_run(s@.subrange(0, start as int)) + s@.subrange(start as int, end as int),
        decreases start,
    {
        let ghost t = s@.subrange(0, start as int);
        assert(s@.subrange(0, start - 1) =~= t.drop_last());
        assert(s@.subrange(start - 1, end as int) =~= seq![t.last()] + s@.subrange(start as int, end as int));
        assert(final_run(t) == final_run(t.drop_last()).push(t.last()));
        assert(final_run(t.drop_last()).push(t.last()) + s@.subrange(start as int, end as int)
            =~= final_run(t.drop_last()) + s@.subrange(start - 1, end as int));
        start = start - 1;
    }
    assert(final_run(s@.subrange(0, start as int)) =~= Seq::<char>::empty());
    if start < end {
        crate::text::slice_chars(s, start, end)
    } else {
        crate::text::slice_chars(s, 0, s.len())
    }
}

fn has(p: &Vec<char>, needle: &str) -> (res: bool)
    ensures
        res == seq_contains(p@, needle@),
{
    contains(p, &chars_of(needle))
}

/// The family of a feature's routes, with its label.
pub fn route_family(feature: &Feature) -> (res: Option<(&'static str, &'static str)>)
    ensures
        match res {
            Some((family, label)) => feature_family(*feature) == Some((family@, label@)),
            None => feature_family(*feature) is None,
        },
{
    if feature.routes.len() == 0 {
        return None;
    }
    let lower = to_lowercase(feature.routes[0].as_str());
    let p = last_word(&chars_of(lower.as_str()));
    if has(&p, "/api/mcp") {
        Some(("mcp", "Serveur MCP"))
    } else if has(&p, "/api/fs/") {
        Some(("project-selection", "Sélection de projet"))
    } else if has(&p, "/api/library") || has(&p, "library-candidates") {
        Some(("library", "Bibliothèque de code"))
    } else if has(&p, "/api/findings") || has(&p, "/quality") || has(&p, "/security") {
        Some(("quality-security", "Qualité et sécurité"))
    } else if has(&p, "/features/") && has(&p, "/port/") {
        Some(("feature-porting", "Portage de Feature"))
    } else if has(&p, "/features") {
        Some(("feature-intelligence", "Intelligence des Features"))
    } else if has(&p, "/docs") {
        Some(("documentation", "Documentation projet"))
    } else if has(&p, "/nodes") || has(&p, "/search") || has(&p, "/impact") || has(&p, "/context") || has(&p, "/ai/query") {
        Some(("code-exploration", "Exploration et impact du code"))
    } else if has(&p, "/api/projects") {
        Some(("project-registry", "Registre et analyse des projets"))
    } else if has(&p, "/api/events") {
        Some(("live-events", "Suivi d’analyse en temps réel"))
    } else {
        None
    }
}

// ---------------------------------------------------------------------------
// Ordering and merging
// ---------------------------------------------------------------------------

/// Non-decreasing order.
pub open spec fn ordered(v: Seq<Seq<char>>) -> bool {
    forall|i: int, j: int| 0 <= i < j < v.len() ==> !seq_less(#[trigger] v[j], #[trigger] v[i])
}

proof fn lemma_insert_keeps_order(v: Seq<Seq<char>>, p: int, x: Seq<char>)
    requires
        ordered(v),
        0 <= p <= v.len(),
        forall|q: int| 0 <= q < p ==> !seq_less(x, #[trigger] v[q]),
        p < v.len() ==> seq_less(x, v[p]),
    ensures
        ordered(v.insert(p, x)),
{
    let t = v.insert(p, x);
    assert forall|a: int, b: int| 0 <= a < b < t.len() implies !seq_less(#[trigger] t[b], #[trigger] t[a]) by {
        if a < p && b < p {
            assert(t[a] == v[a] && t[b] == v[b]);
        } else if a < p && b == p {
            assert(t[a] == v[a] && t[b] == x);
        } else if a < p && b > p {
            assert(t[a] == v[a] && t[b] == v[b - 1]);
        } else if a == p {
            assert(t[a] == x && t[b] == v[b - 1]);
            if seq_less(v[b - 1], x) {
                lemma_seq_less_trans(v[b - 1], x, v[p]);
                if b - 1 == p {
                    lemma_seq_less_irreflexive(v[p]);
                }
            }
        } else {
            assert(t[a] == v[a - 1] && t[b] == v[b - 1]);
        }
    }
}

fn insertion_point(v: &Vec<String>, x: &str) -> (res: usize)
    ensures
        res <= v@.len(),
        forall|q: int| 0 <= q < res ==> !seq_less(x@, #[trigger] views(v@)[q]),
        res < v@.len() ==> seq_less(x@, views(v@)[res as int]),
{
    let mut p: usize = 0;
    while p < v.len() && !str_less(x, v[p].as_str())
        invariant
            p <= v@.len(),
            forall|q: int| 0 <= q < p ==> !seq_less(x@, #[trigger] views(v@)[q]),
        decreases v.len() - p,
    {
        p = p + 1;
    }
    p
}

/// Sorts strings into non-decreasing order, keeping every value.
fn sort_strings(v: &mut Vec<String>)
    ensures
        ordered(views(final(v)@)),
        final(v)@.len() == old(v)@.len(),
        forall|x: Seq<char>| #[trigger] views(final(v)@).contains(x) <==> views(old(v)@).contains(x),
{
    let mut out: Vec<String> = Vec::new();
    let mut i: usize = 0;
    while i < v.len()
        invariant
            i <= v@.len(),
            v@ == old(v)@,
            out@.len() == i,
            ordered(views(out@)),
            forall|x: Seq<char>| #[trigger] views(out@).contains(x) <==> views(v@.subrange(0, i as int)).contains(x),
        decreases v.len() - i,
    {
        let p = insertion_point(&out, v[i].as_str());
        let ghost before = views(out@);
        proof {
            lemma_insert_keeps_order(before, p as int, v@[i as int]@);
        }
        out.insert(p, v[i].clone());
        proof {
            assert(views(out@) =~= before.insert(p as int, v@[i as int]@));
            let pre = views(v@.subrange(0, i as int));
            let post = views(v@.subrange(0, i + 1));
            assert(post =~= pre.push(v@[i as int]@));
            assert forall|x: Seq<char>| #[trigger] views(out@).contains(x) <==> post.contains(x) by {
                if views(out@).contains(x) {
                    let k = choose|k: int| 0 <= k < views(out@).len() && views(out@)[k] == x;
                    if k < p {
                        assert(before[k] == x);
                        assert(before.contains(x));
                        let m = choose|m: int| 0 <= m < pre.len() && pre[m] == x;
                        assert(post[m] == x);
                    } else if k == p {
                        assert(post[i as int] == x);
                    } else {
                        assert(before[k - 1] == x);
                        assert(before.contains(x));
                        let m = choose|m: int| 0 <= m < pre.len() && pre[m] == x;
                        assert(post[m] == x);
                    }
                }
                if post.contains(x) {
                    let m = choose|m: int| 0 <= m < post.len() && post[m] == x;
                    if m < i {
                        assert(pre[m] == x);
                        assert(before.contains(x));
                        let k = choose|k: int| 0 <= k < before.len() && before[k] == x;
                        if k < p {
                            assert(views(out@)[k] == x);
                        } else {
                            assert(views(out@)[k + 1] == x);
                        }
                    } else {
                        assert(views(out@)[p as int] == x);
                    }
                }
            }
        }
        i = i + 1;
    }
    assert(v@.subrange(0, v@.len() as int) =~= v@);
    *v = out;
}

/// Adds the values not yet present, then sorts.
fn merge_values(target: &mut Vec<String>, values: &Vec<String>)
    ensures
        ordered(views(final(target)@)),
        forall|x: Seq<char>| #[trigger] views(final(target)@).contains(x)
            <==> (views(old(target)@).contains(x) || views(values@).contains(x)),
{
    let existing = crate::text::copy_strings(target);
    let mut k: usize = 0;
    while k < values.len()
        invariant
            k <= values@.len(),
            existing@ == old(target)@,
            forall|x: Seq<char>| #[trigger] views(target@).contains(x)
                <==> (views(old(target)@).contains(x) || views(values@.subrange(0, k as int)).contains(x)),
        decreases values.len() - k,
    {
        let ghost before = views(target@);
        let ghost pre = views(values@.subrange(0, k as int));
        let ghost post = views(values@.subrange(0, k + 1));
        proof {
            assert(post =~= pre.push(values@[k as int]@));
            crate::text::lemma_contains_push(pre, values@[k as int]@);
        }
        if !holds(&existing, values[k].as_str()) {
            target.push(values[k].clone());
            proof {
                assert(views(target@) =~= before.push(values@[k as int]@));
                crate::text::lemma_contains_push(before, values@[k as int]@);
            }
        }
        k = k + 1;
    }
    assert(values@.subrange(0, values@.len() as int) =~= values@);
    sort_strings(target);
}

// ---------------------------------------------------------------------------
// Grouping route families
// ---------------------------------------------------------------------------

proof fn lemma_member_of(v: Seq<String>, x: Seq<char>) -> (k: int)
    requires
        views(v).contains(x),
    ensures
        0 <= k < v.len(),
        v[k]@ == x,
{
    let k = choose|k: int| 0 <= k < views(v).len() && views(v)[k] == x;
    k
}

proof fn lemma_listed_in(v: Seq<String>, k: int)
    requires
        0 <= k < v.len(),
    ensures
        views(v).contains(v[k]@),
{
    assert(views(v)[k] == v[k]@);
}

proof fn lemma_entry_sound(g: ProjectGraph, src: Feature, m: Feature, x: Seq<char>)
    requires
        feature_sound(g, src),
        views(src.entry_point_node_ids@).contains(x),
        views(src.node_ids@).contains(x) ==> views(m.node_ids@).contains(x),
    ensures
        id_listed(m.node_ids@, x),
        exists|i: int| 0 <= i < g.nodes@.len() && candidate_root(g.nodes@[i]) && g.nodes@[i].id@ == x,
{
    let q = lemma_member_of(src.entry_point_node_ids@, x);
    assert(id_listed(src.node_ids@, src.entry_point_node_ids@[q]@));
    let j = choose|j: int| 0 <= j < src.node_ids@.len() && src.node_ids@[j]@ == x;
    lemma_listed_in(src.node_ids@, j);
    let jm = lemma_member_of(m.node_ids@, x);
}

proof fn lemma_union_sound(g: ProjectGraph, a: Feature, b: Feature, m: Feature)
    requires
        feature_sound(g, a),
        feature_sound(g, b),
        forall|x: Seq<char>| #[trigger] views(m.entry_point_node_ids@).contains(x)
            <==> (views(a.entry_point_node_ids@).contains(x) || views(b.entry_point_node_ids@).contains(x)),
        forall|x: Seq<char>| #[trigger] views(m.node_ids@).contains(x)
            <==> (views(a.node_ids@).contains(x) || views(b.node_ids@).contains(x)),
        forall|x: Seq<char>| #[trigger] views(m.edge_ids@).contains(x)
            <==> (views(a.edge_ids@).contains(x) || views(b.edge_ids@).contains(x)),
        m.ai_provider == a.ai_provider,
    ensures
        feature_sound(g, m),
{
    lemma_listed_in(a.entry_point_node_ids@, 0);
    if m.entry_point_node_ids@.len() == 0 {
        assert(views(m.entry_point_node_ids@).contains(a.entry_point_node_ids@[0]@));
        let z = lemma_member_of(m.entry_point_node_ids@, a.entry_point_node_ids@[0]@);
    }
    assert forall|k: int| 0 <= k < m.entry_point_node_ids@.len() implies id_listed(m.node_ids@, #[trigger] m.entry_point_node_ids@[k]@)
        && exists|i: int| 0 <= i < g.nodes@.len() && candidate_root(g.nodes@[i]) && g.nodes@[i].id@ == m.entry_point_node_ids@[k]@ by {
        let x = m.entry_point_node_ids@[k]@;
        lemma_listed_in(m.entry_point_node_ids@, k);
        if views(a.entry_point_node_ids@).contains(x) {
            lemma_entry_sound(g, a, m, x);
        } else {
            lemma_entry_sound(g, b, m, x);
        }
    }
    assert forall|k: int| 0 <= k < m.node_ids@.len() implies g.has_node(#[trigger] m.node_ids@[k]@)
        && (unique_node_ids(g) ==> g.nodes@[g.node_index(m.node_ids@[k]@)].source_scope.spec_library_eligible()) by {
        let x = m.node_ids@[k]@;
        lemma_listed_in(m.node_ids@, k);
        if views(a.node_ids@).contains(x) {
            let q = lemma_member_of(a.node_ids@, x);
        } else {
            let q = lemma_member_of(b.node_ids@, x);
        }
    }
    assert forall|k: int| 0 <= k < m.edge_ids@.len() implies edge_known(g, #[trigger] m.edge_ids@[k]@) by {
        let x = m.edge_ids@[k]@;
        lemma_listed_in(m.edge_ids@, k);
        if views(a.edge_ids@).contains(x) {
            let q = lemma_member_of(a.edge_ids@, x);
        } else {
            let q = lemma_member_of(b.edge_ids@, x);
        }
    }
}

/// The memberships of `extra` (from position `k` on) whose node is not among `ids`, in order.
pub open spec fn new_memberships(ids: Seq<Seq<char>>, extra: Seq<FeatureMembership>, k: int) -> Seq<FeatureMembership>
    decreases k,
{
    if k <= 0 {
        Seq::empty()
    } else if ids.contains(extra[k - 1].node_id@) {
        new_memberships(ids, extra, k - 1)
    } else {
        new_memberships(ids, extra, k - 1).push(extra[k - 1])
    }
}

/// Appends the memberships of `extra` whose node had none in `entry`.
fn merge_memberships(entry: &mut Vec<FeatureMembership>, extra: &Vec<FeatureMembership>)
    ensures
        final(entry)@ == old(entry)@ + new_memberships(
            old(entry)@.map_values(|m: FeatureMembership| m.node_id@),
            extra@,
            extra@.len() as int,
        ),
{
    let ghost ids = old(entry)@.map_values(|m: FeatureMembership| m.node_id@);
    let mut existing: Vec<String> = Vec::new();
    let mut i: usize = 0;
    while i < entry.len()
        invariant
            i <= entry@.len(),
            entry@ == old(entry)@,
            ids == old(entry)@.map_values(|m: FeatureMembership| m.node_id@),
            views(existing@) == ids.subrange(0, i as int),
        decreases entry.len() - i,
    {
        let ghost before = views(existing@);
        existing.push(entry[i].node_id.clone());
        assert(ids[i as int] == entry@[i as int].node_id@);
        assert(views(existing@) =~= before.push(ids[i as int]));
        assert(views(existing@) =~= ids.subrange(0, i + 1));
        i = i + 1;
    }
    assert(ids.subrange(0, ids.len() as int) =~= ids);
    let mut k: usize = 0;
    while k < extra.len()
        invariant
            k <= extra@.len(),
            views(existing@) == ids,
            entry@ == old(entry)@ + new_memberships(ids, extra@, k as int),
        decreases extra.len() - k,
    {
        if !holds(&existing, extra[k].node_id.as_str()) {
            entry.push(extra[k].duplicate());
        }
        k = k + 1;
    }
}

/// The list holds, in order, the values of `old` and of `add`, each once.
pub open spec fn merged_list(new: Seq<String>, old: Seq<String>, add: Seq<String>) -> bool {
    &&& ordered(views(new))
    &&& forall|x: Seq<char>| #[trigger] views(new).contains(x) <==> (views(old).contains(x) || views(add).contains(x))
}

/// Merges `feature` into the family's feature: every list gains the values it lacked and
/// is sorted, memberships gain the new members, confidence and update time take the larger
/// value, and the source hash covers the merged members and edges.
fn merge_into(entry: &mut Feature, feature: &Feature, Ghost(g): Ghost<ProjectGraph>)
    requires
        feature_sound(g, *old(entry)),
        feature_sound(g, *feature),
    ensures
        feature_sound(g, *final(entry)),
        final(entry).status == old(entry).status,
        final(entry).project_id == old(entry).project_id,
        final(entry).name == old(entry).name,
        merged_list(final(entry).entry_point_node_ids@, old(entry).entry_point_node_ids@, feature.entry_point_node_ids@),
        merged_list(final(entry).node_ids@, old(entry).node_ids@, feature.node_ids@),
        merged_list(final(entry).edge_ids@, old(entry).edge_ids@, feature.edge_ids@),
        merged_list(final(entry).routes@, old(entry).routes@, feature.routes@),
        merged_list(final(entry).pages@, old(entry).pages@, feature.pages@),
        merged_list(final(entry).services@, old(entry).services@, feature.services@),
        merged_list(final(entry).repositories@, old(entry).repositories@, feature.repositories@),
        merged_list(final(entry).models@, old(entry).models@, feature.models@),
        merged_list(final(entry).entities@, old(entry).entities@, feature.entities@),
        merged_list(final(entry).templates@, old(entry).templates@, feature.templates@),
        merged_list(final(entry).tests@, old(entry).tests@, feature.tests@),
        merged_list(final(entry).external_services@, old(entry).external_services@, feature.external_services@),
        final(entry).memberships@ == old(entry).memberships@ + new_memberships(
            old(entry).memberships@.map_values(|m: FeatureMembership| m.node_id@),
            feature.memberships@,
            feature.memberships@.len() as int,
        ),
        final(entry).confidence_permille == if feature.confidence_permille > old(entry).confidence_permille {
            feature.confidence_permille
        } else {
            old(entry).confidence_permille
        },
        final(entry).updated_at == if feature.updated_at > old(entry).updated_at {
            feature.updated_at
        } else {
            old(entry).updated_at
        },
        final(entry).source_hash@ == crate::hashing::spec_stable_hash(
            (final(entry).node_ids@ + final(entry).edge_ids@).map_values(|p: String| p@),
        ),
        final(entry).id == old(entry).id,
        final(entry).description == old(entry).description,
        final(entry).completeness_permille == old(entry).completeness_permille,
        final(entry).missing_signals == old(entry).missing_signals,
        final(entry).business_rules == old(entry).business_rules,
        final(entry).inputs == old(entry).inputs,
        final(entry).outputs == old(entry).outputs,
        final(entry).side_effects == old(entry).side_effects,
        final(entry).security_constraints == old(entry).security_constraints,
        final(entry).ai_provider == old(entry).ai_provider,
        final(entry).ai_model == old(entry).ai_model,
        final(entry).prompt_version == old(entry).prompt_version,
        final(entry).created_at == old(entry).created_at,
{
    let ghost before = *entry;
    merge_values(&mut entry.entry_point_node_ids, &feature.entry_point_node_ids);
    merge_values(&mut entry.node_ids, &feature.node_ids);
    merge_values(&mut entry.edge_ids, &feature.edge_ids);
    merge_values(&mut entry.routes, &feature.routes);
    merge_values(&mut entry.pages, &feature.pages);
    merge_values(&mut entry.services, &feature.services);
    merge_values(&mut entry.repositories, &feature.repositories);
    merge_values(&mut entry.models, &feature.models);
    merge_values(&mut entry.entities, &feature.entities);
    merge_values(&mut entry.templates, &feature.templates);
    merge_values(&mut entry.tests, &feature.tests);
    merge_values(&mut entry.external_services, &feature.external_services);
    merge_memberships(&mut entry.memberships, &feature.memberships);
    if feature.confidence_permille > entry.confidence_permille {
        entry.confidence_permille = feature.confidence_permille;
    }
    entry.source_hash = stable_hash(&joined_ids(&entry.node_ids, &entry.edge_ids));
    if feature.updated_at > entry.updated_at {
        entry.updated_at = feature.updated_at;
    }
    proof {
        lemma_union_sound(g, before, *feature, *entry);
    }
}

/// Stable insertion of features by name.
pub open spec fn names_ordered(v: Seq<Feature>) -> bool {
    forall|i: int, j: int| 0 <= i < j < v.len() ==> !seq_less(#[trigger] v[j].name@, #[trigger] v[i].name@)
}

fn sort_by_name(v: Vec<Feature>, Ghost(g): Ghost<ProjectGraph>, Ghost(project_id): Ghost<Seq<char>>) -> (res: Vec<Feature>)
    requires
        forall|k: int| 0 <= k < v@.len() ==> feature_sound(g, #[trigger] v@[k]) && v@[k].status == FeatureStatus::Detected
            && v@[k].project_id@ == project_id,
    ensures
        names_ordered(res@),
        res@.len() == v@.len(),
        forall|k: int| 0 <= k < res@.len() ==> feature_sound(g, #[trigger] res@[k]) && res@[k].status == FeatureStatus::Detected
            && res@[k].project_id@ == project_id,
{
    let mut input = v;
    let mut out: Vec<Feature> = Vec::new();
    let ghost total = input@.len();
    while input.len() > 0
        invariant
            out@.len() + input@.len() == total,
            names_ordered(out@),
            forall|k: int| 0 <= k < out@.len() ==> feature_sound(g, #[trigger] out@[k]) && out@[k].status == FeatureStatus::Detected
                && out@[k].project_id@ == project_id,
            forall|k: int| 0 <= k < input@.len() ==> feature_sound(g, #[trigger] input@[k]) && input@[k].status == FeatureStatus::Detected
                && input@[k].project_id@ == project_id,
        decreases input@.len(),
    {
        let ghost before_input = input@;
        let f = input.remove(0);
        assert(f == before_input[0]);
        assert forall|k: int| 0 <= k < input@.len() implies feature_sound(g, #[trigger] input@[k])
            && input@[k].status == FeatureStatus::Detected && input@[k].project_id@ == project_id by {
            assert(input@[k] == before_input[k + 1]);
        }
        let mut p: usize = 0;
        while p < out.len() && !str_less(f.name.as_str(), out[p].name.as_str())
            invariant
                p <= out@.len(),
                forall|q: int| 0 <= q < p ==> !seq_less(f.name@, #[trigger] out@[q].name@),
            decreases out.len() - p,
        {
            p = p + 1;
        }
        let ghost names_before = out@.map_values(|x: Feature| x.name@);
        proof {
            assert forall|i: int, j: int| 0 <= i < j < names_before.len() implies !seq_less(#[trigger] names_before[j], #[trigger] names_before[i]) by {
                assert(names_before[j] == out@[j].name@ && names_before[i] == out@[i].name@);
            }
            assert forall|q: int| 0 <= q < p implies !seq_less(f.name@, #[trigger] names_before[q]) by {
                assert(names_before[q] == out@[q].name@);
            }
            lemma_insert_keeps_order(names_before, p as int, f.name@);
        }
        let ghost out_before = out@;
        out.insert(p, f);
        proof {
            assert(out@ == out_before.insert(p as int, f));
            let t = names_before.insert(p as int, f.name@);
            assert forall|i: int, j: int| 0 <= i < j < out@.len() implies !seq_less(#[trigger] out@[j].name@, #[trigger] out@[i].name@) by {
                assert(t[i] == out@[i].name@ && t[j] == out@[j].name@);
            }
            assert forall|k: int| 0 <= k < out@.len() implies feature_sound(g, #[trigger] out@[k]) && out@[k].status == FeatureStatus::Detected
                && out@[k].project_id@ == project_id by {
                if k < p {
                    assert(out@[k] == out_before[k]);
                } else if k > p {
                    assert(out@[k] == out_before[k - 1]);
                }
            }
        }
    }
    out
}

/// Detected features all satisfy the detection guarantees, for the given project.
pub open spec fn all_sound(g: ProjectGraph, v: Seq<Feature>, project_id: Seq<char>) -> bool {
    forall|k: int| 0 <= k < v.len() ==> feature_sound(g, #[trigger] v[k]) && v[k].status == FeatureStatus::Detected
        && v[k].project_id@ == project_id
}

fn family_id(project_id: &str, family: &str) -> (res: String)
    ensures
        res@ == feature_id_of(crate::hashing::spec_stable_hash(seq![project_id@, family@])),
{
    let parts = vec![String::from_str(project_id), String::from_str(family)];
    assert(parts@.map_values(|p: String| p@) =~= seq![project_id@, family@]);
    let digest = stable_hash(&parts);
    let d = chars_of(digest.as_str());
    let mut out = chars_of("feature:");
    let cut: usize = if d.len() < 24 { d.len() } else { 24 };
    append_chars(&mut out, &crate::text::slice_chars(&d, 0, cut));
    string_of(&out)
}

/// The route families of the first `n` features, each once, in the order they first come.
pub open spec fn family_keys(features: Seq<Feature>, n: int) -> Seq<Seq<char>>
    decreases n,
{
    if n <= 0 {
        seq![]
    } else {
        let before = family_keys(features, n - 1);
        match feature_family(features[n - 1]) {
            Some((family, _)) => if before.contains(family) { before } else { before.push(family) },
            None => before,
        }
    }
}

/// How many of the first `n` features belong to no route family.
pub open spec fn unfamilied_count(features: Seq<Feature>, n: int) -> int
    decreases n,
{
    if n <= 0 {
        0
    } else {
        unfamilied_count(features, n - 1) + if feature_family(features[n - 1]) is None { 1int } else { 0 }
    }
}

/// Features whose first route belongs to a known family are merged into one feature per
/// family, named after the family; the others stay as they are. The result is sorted by
/// name, stably, the unmerged features first among equal names.
pub fn group_route_features(
    project_id: &str,
    graph: &ProjectGraph,
    roles: &Vec<ArchitectureRole>,
    features: Vec<Feature>,
) -> (res: Vec<Feature>)
    requires
        roles@.len() == graph.nodes@.len(),
        all_sound(*graph, features@, project_id@),
    ensures
        all_sound(*graph, res@, project_id@),
        names_ordered(res@),
        res@.len() <= features@.len(),
        res@.len() == unfamilied_count(features@, features@.len() as int) + family_keys(
            features@,
            features@.len() as int,
        ).len(),
{
    let ghost given = features@;
    let mut input = features;
    let ghost total = input@.len();
    let mut ungrouped: Vec<Feature> = Vec::new();
    let mut families: Vec<&'static str> = Vec::new();
    let mut entries: Vec<Feature> = Vec::new();
    while input.len() > 0
        invariant
            all_sound(*graph, input@, project_id@),
            all_sound(*graph, ungrouped@, project_id@),
            all_sound(*graph, entries@, project_id@),
            families@.len() == entries@.len(),
            ungrouped@.len() + entries@.len() + input@.len() <= total,
            total == given.len(),
            input@.len() <= total,
            input@ == given.subrange(total - input@.len(), total as int),
            ungrouped@.len() == unfamilied_count(given, total - input@.len()),
            families@.map_values(|f: &str| f@) == family_keys(given, total - input@.len()),
        decreases input@.len(),
    {
        let ghost before_input = input@;
        let ghost done = total - input@.len();
        let feature = input.remove(0);
        assert(feature == before_input[0]);
        assert(feature == given[done]);
        assert(input@ =~= given.subrange(done + 1, total as int));
        assert forall|k: int| 0 <= k < input@.len() implies feature_sound(*graph, #[trigger] input@[k])
            && input@[k].status == FeatureStatus::Detected && input@[k].project_id@ == project_id@ by {
            assert(input@[k] == before_input[k + 1]);
        }
        match route_family(&feature) {
            None => {
                ungrouped.push(feature);
                assert forall|k: int| 0 <= k < ungrouped@.len() implies feature_sound(*graph, #[trigger] ungrouped@[k])
                    && ungrouped@[k].status == FeatureStatus::Detected && ungrouped@[k].project_id@ == project_id@ by {
                    if k < ungrouped@.len() - 1 {
                        assert(ungrouped@[k] == ungrouped@.drop_last()[k]);
                    }
                }
            },
            Some((family, label)) => {
                let mut found: Option<usize> = None;
                let mut q: usize = 0;
                while q < families.len() && found.is_none()
                    invariant
                        q <= families@.len(),
                        match found {
                            Some(i) => i < families@.len() && families@[i as int]@ == family@,
                            None => forall|j: int| 0 <= j < q ==> families@[j]@ != family@,
                        },
                    decreases families.len() - q,
                {
                    if str_equal(families[q], family) {
                        found = Some(q);
                    }
                    q = q + 1;
                }
                match found {
                    None => {
                        let mut value = feature;
                        value.id = family_id(project_id, family);
                        value.name = String::from_str(label);
                        value.description = text_of(&vec!["Capacité fonctionnelle regroupant les flux liés à ", label, "."]);
                        proof {
                            let keys = families@.map_values(|f: &str| f@);
                            assert forall|j: int| 0 <= j < keys.len() implies keys[j] != family@ by {}
                            assert(!keys.contains(family@));
                        }
                        families.push(family);
                        assert(families@.map_values(|f: &str| f@) =~= family_keys(given, done + 1));
                        entries.push(value);
                        assert forall|k: int| 0 <= k < entries@.len() implies feature_sound(*graph, #[trigger] entries@[k])
                            && entries@[k].status == FeatureStatus::Detected && entries@[k].project_id@ == project_id@ by {
                            if k < entries@.len() - 1 {
                                assert(entries@[k] == entries@.drop_last()[k]);
                            }
                        }
                    },
                    Some(i) => {
                        proof {
                            let keys = families@.map_values(|f: &str| f@);
                            assert(keys[i as int] == family@);
                            assert(keys.contains(family@));
                        }
                        let ghost entries_before = entries@;
                        let mut entry = entries.remove(i);
                        assert(entry == entries_before[i as int]);
                        if !str_equal(entry.source_hash.as_str(), feature.source_hash.as_str()) {
                            merge_into(&mut entry, &feature, Ghost(*graph));
                        }
                        let ghost entries_mid = entries@;
                        entries.insert(i, entry);
                        assert forall|k: int| 0 <= k < entries@.len() implies feature_sound(*graph, #[trigger] entries@[k])
                            && entries@[k].status == FeatureStatus::Detected && entries@[k].project_id@ == project_id@ by {
                            if k < i {
                                assert(entries@[k] == entries_mid[k]);
                                assert(entries_mid[k] == entries_before[k]);
                            } else if k > i {
                                assert(entries@[k] == entries_mid[k - 1]);
                                assert(entries_mid[k - 1] == entries_before[k]);
                            }
                        }
                    },
                }
            },
        }
    }
    let mut all = ungrouped;
    while entries.len() > 0
        invariant
            roles@.len() == graph.nodes@.len(),
            all_sound(*graph, all@, project_id@),
            all_sound(*graph, entries@, project_id@),
            all@.len() + entries@.len() <= total,
            all@.len() + entries@.len() == unfamilied_count(given, total as int) + family_keys(given, total as int).len(),
        decreases entries@.len(),
    {
        let ghost before = entries@;
        let mut entry = entries.remove(0);
        assert(entry == before[0]);
        assert forall|k: int| 0 <= k < entries@.len() implies feature_sound(*graph, #[trigger] entries@[k])
            && entries@[k].status == FeatureStatus::Detected && entries@[k].project_id@ == project_id@ by {
            assert(entries@[k] == before[k + 1]);
        }
        let ghost e0 = entry;
        refresh_feature_completeness(graph, roles, &mut entry);
        assert(feature_sound(*graph, entry)) by {
            assert(entry.entry_point_node_ids == e0.entry_point_node_ids);
            assert(entry.node_ids == e0.node_ids);
            assert(entry.edge_ids == e0.edge_ids);
        }
        all.push(entry);
        assert forall|k: int| 0 <= k < all@.len() implies feature_sound(*graph, #[trigger] all@[k])
            && all@[k].status == FeatureStatus::Detected && all@[k].project_id@ == project_id@ by {
            if k < all@.len() - 1 {
                assert(all@[k] == all@.drop_last()[k]);
            }
        }
    }
    sort_by_name(all, Ghost(*graph), Ghost(project_id@))
}

/// How many of the first `n` nodes anchor a candidate feature.
pub open spec fn root_count(nodes: Seq<CodeNode>, n: int) -> int
    decreases n,
{
    if n <= 0 {
        0
    } else {
        root_count(nodes, n - 1) + if candidate_root(nodes[n - 1]) { 1int } else { 0 }
    }
}

proof fn lemma_root_count_grows(nodes: Seq<CodeNode>, a: int, b: int)
    requires
        0 <= a <= b,
    ensures
        root_count(nodes, a) <= root_count(nodes, b),
    decreases b - a,
{
    if a < b {
        lemma_root_count_grows(nodes, a, b - 1);
    }
}

proof fn lemma_unfamilied_count_nonnegative(features: Seq<Feature>, n: int)
    ensures
        unfamilied_count(features, n) >= 0,
    decreases n,
{
    if n > 0 {
        lemma_unfamilied_count_nonnegative(features, n - 1);
    }
}

/// Grouping keeps at least one feature of a list that has one.
proof fn lemma_grouping_keeps_one(features: Seq<Feature>, n: int)
    requires
        n >= 1,
    ensures
        unfamilied_count(features, n) + family_keys(features, n).len() >= 1,
{
    lemma_unfamilied_count_nonnegative(features, n - 1);
    let before = family_keys(features, n - 1);
    match feature_family(features[n - 1]) {
        Some((family, _)) => {
            if before.contains(family) {
                assert(before.len() >= 1);
            } else {
                assert(before.push(family).len() >= 1);
            }
        },
        None => {},
    }
}

/// Deterministic candidate features of a project.
///
/// Each first-party entry point (at most 250, in graph order) anchors a candidate grown
/// along followed relations; `roles[i]` and `domains[i]` are the architectural role and
/// the domain of the graph's node `i`. Candidates of a known route family are merged.
/// Every candidate is anchored on entry points, lists only nodes and edges of the graph,
/// and passes validation whenever node ids are unique.
pub fn detect_feature_candidates(
    project_id: &str,
    graph: &ProjectGraph,
    roles: &Vec<ArchitectureRole>,
    domains: &Vec<String>,
) -> (res: Vec<Feature>)
    requires
        roles@.len() == graph.nodes@.len(),
        domains@.len() == graph.nodes@.len(),
    ensures
        all_sound(*graph, res@, project_id@),
        forall|k: int| 0 <= k < res@.len() && unique_node_ids(*graph) ==> spec_feature_valid(*graph, #[trigger] res@[k]),
        names_ordered(res@),
        res@.len() <= 250,
        res@.len() <= root_count(graph.nodes@, graph.nodes@.len() as int),
        res@.len() > 0 <==> root_count(graph.nodes@, graph.nodes@.len() as int) > 0,
{
    let now = crate::findings::unix_now();
    let n = graph.nodes.len();
    let mut features: Vec<Feature> = Vec::new();
    let mut i: usize = 0;
    while i < n && features.len() < 250
        invariant
            n == graph.nodes@.len(),
            i <= n,
            roles@.len() == n,
            domains@.len() == n,
            features@.len() <= 250,
            features@.len() == root_count(graph.nodes@, i as int),
            all_sound(*graph, features@, project_id@),
        decreases n - i,
    {
        if is_candidate_root(&graph.nodes[i]) {
            let feature = candidate_feature(project_id, graph, roles, domains, i, now);
            features.push(feature);
            assert forall|k: int| 0 <= k < features@.len() implies feature_sound(*graph, #[trigger] features@[k])
                && features@[k].status == FeatureStatus::Detected && features@[k].project_id@ == project_id@ by {
                if k < features@.len() - 1 {
                    assert(features@[k] == features@.drop_last()[k]);
                }
            }
        }
        i = i + 1;
    }
    proof {
        lemma_root_count_grows(graph.nodes@, i as int, n as int);
    }
    let ghost candidates = features@;
    let res = group_route_features(project_id, graph, roles, features);
    proof {
        if candidates.len() >= 1 {
            lemma_grouping_keeps_one(candidates, candidates.len() as int);
        }
        assert forall|k: int| 0 <= k < res@.len() && unique_node_ids(*graph) implies spec_feature_valid(*graph, #[trigger] res@[k]) by {
            lemma_sound_features_are_valid(*graph, res@[k]);
        }
    }
    res
}

} // verus!
