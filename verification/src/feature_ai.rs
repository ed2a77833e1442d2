//! A model's proposals on detected features, accepted only where the graph and the
//! deterministic candidates support them.
use vstd::prelude::*;

use crate::context_pack::first_n;
use crate::feature_detection::{
    facets_hold, feature_signals, joined_ids, lemma_facets_same_fields, refresh_feature_facets, spec_completeness,
    spec_missing_signals,
};
use crate::features::{
    ArchitectureRole, Feature, FeatureMembership, MembershipSource, edge_known, id_listed, spec_feature_valid,
    validate_feature,
};
use crate::hashing::{spec_stable_hash, stable_hash};
use crate::model::{CodeEdge, ProjectGraph, str_equal};
use crate::text::{
    chars_of, concat_str, holds, insert_sorted_unique, slice_chars, spec_trim, string_of, strictly_sorted, trim, views,
};

verus! {

/// A model's reading of a candidate feature; its confidence is in thousandths.
#[derive(Clone, Debug)]
pub struct AiFeatureProposal {
    pub candidate_id: String,
    pub name: String,
    pub description: String,
    pub member_node_ids: Vec<String>,
    pub entry_point_node_ids: Vec<String>,
    pub business_rules: Vec<String>,
    pub inputs: Vec<String>,
    pub outputs: Vec<String>,
    pub side_effects: Vec<String>,
    pub security_constraints: Vec<String>,
    pub confidence_permille: u32,
}

/// The proposals of one model answer.
#[derive(Clone, Debug)]
pub struct AiFeatureProposals {
    pub features: Vec<AiFeatureProposal>,
}

// ---------------------------------------------------------------------------
// What a proposal may change
// ---------------------------------------------------------------------------

/// `i` is the last candidate carrying `id`: a later candidate with the same id takes
/// precedence over an earlier one.
pub open spec fn last_candidate_at(cands: Seq<Feature>, id: Seq<char>, i: int) -> bool {
    &&& 0 <= i < cands.len()
    &&& cands[i].id@ == id
    &&& forall|j: int| i < j < cands.len() ==> cands[j].id@ != id
}

/// The candidate a proposal designates, if any.
pub open spec fn candidate_for(cands: Seq<Feature>, id: Seq<char>) -> Option<Feature> {
    if exists|i: int| last_candidate_at(cands, id, i) {
        Some(cands[choose|i: int| last_candidate_at(cands, id, i)])
    } else {
        None
    }
}

/// Members are proposed, and each is a member of the candidate and a node of the graph.
pub open spec fn members_allowed(g: ProjectGraph, cand: Feature, members: Seq<String>) -> bool {
    &&& members.len() > 0
    &&& forall|k: int| 0 <= k < members.len() ==> id_listed(cand.node_ids@, #[trigger] members[k]@) && g.has_node(members[k]@)
}

/// Entry points are proposed, and each is an entry point of the candidate.
pub open spec fn entries_allowed(cand: Feature, entries: Seq<String>) -> bool {
    &&& entries.len() > 0
    &&& forall|k: int| 0 <= k < entries.len() ==> id_listed(cand.entry_point_node_ids@, #[trigger] entries[k]@)
}

/// Why a proposal is refused before the feature it yields is validated, if it is.
pub open spec fn proposal_refusal(g: ProjectGraph, cands: Seq<Feature>, p: AiFeatureProposal) -> Option<Seq<char>> {
    match candidate_for(cands, p.candidate_id@) {
        None => Some("unknown candidate "@ + p.candidate_id@),
        Some(c) => if !members_allowed(g, c, p.member_node_ids@) {
            Some("invalid member in proposal "@ + p.candidate_id@)
        } else if !entries_allowed(c, p.entry_point_node_ids@) {
            Some("invalid entry point in proposal "@ + p.candidate_id@)
        } else {
            None
        },
    }
}

/// The feature a proposal yields passes validation: its entry points are members, its
/// members first-party nodes, the candidate's edges known.
pub open spec fn yields_valid(g: ProjectGraph, cand: Feature, p: AiFeatureProposal) -> bool {
    &&& p.entry_point_node_ids@.len() > 0
    &&& forall|k: int| 0 <= k < p.member_node_ids@.len() ==> g.has_node(#[trigger] p.member_node_ids@[k]@)
        && g.nodes@[g.node_index(p.member_node_ids@[k]@)].source_scope.spec_library_eligible()
    &&& forall|k: int| 0 <= k < cand.edge_ids@.len() ==> edge_known(g, #[trigger] cand.edge_ids@[k]@)
    &&& forall|k: int| 0 <= k < p.entry_point_node_ids@.len() ==> id_listed(p.member_node_ids@, #[trigger] p.entry_point_node_ids@[k]@)
}

/// A proposal is accepted: its candidate exists, its members and entry points are allowed
/// and the feature it yields is valid.
pub open spec fn proposal_accepted(g: ProjectGraph, cands: Seq<Feature>, p: AiFeatureProposal) -> bool {
    proposal_refusal(g, cands, p) is None && yields_valid(g, candidate_for(cands, p.candidate_id@)->0, p)
}

/// The candidate's memberships whose node is among `members`, in order.
pub open spec fn kept_memberships(ms: Seq<FeatureMembership>, members: Seq<String>) -> Seq<FeatureMembership>
    decreases ms.len(),
{
    if ms.len() == 0 {
        ms
    } else {
        let k = kept_memberships(ms.drop_last(), members);
        if id_listed(members, ms.last().node_id@) { k.push(ms.last()) } else { k }
    }
}

/// The reason given to a membership the model selected.
pub open spec fn ai_selection_reason() -> Seq<char> {
    "AI semantic selection constrained to deterministic candidate"@
}

/// `r` is `m` credited to the model.
pub open spec fn relabeled(m: FeatureMembership, r: FeatureMembership) -> bool {
    &&& r.node_id == m.node_id
    &&& r.confidence_permille == m.confidence_permille
    &&& r.optional == m.optional
    &&& r.external_dependency == m.external_dependency
    &&& r.source == MembershipSource::Ai
    &&& r.reason@ == ai_selection_reason()
}

/// The confidence of an accepted proposal, in thousandths rounded down: 65% of the
/// candidate's and 35% of the model's (at most 1 000), at most 1 000.
pub open spec fn blended_confidence(candidate: u32, proposed: u32) -> int {
    let q: int = if proposed <= 1000 { proposed as int } else { 1000 };
    let v: int = (candidate * 650 + q * 350) / 1000;
    if v <= 1000 { v } else { 1000 }
}

/// `f` is the candidate `c` as the proposal `p` of the model `model` of `provider` reads it.
pub open spec fn applied(c: Feature, p: AiFeatureProposal, provider: Seq<char>, model: Seq<char>, f: Feature) -> bool {
    &&& f.id == c.id
    &&& f.project_id == c.project_id
    &&& f.name@ == first_n(spec_trim(p.name@), 120)
    &&& f.description@ == first_n(spec_trim(p.description@), 2000)
    &&& f.confidence_permille == blended_confidence(c.confidence_permille, p.confidence_permille)
    &&& f.completeness_permille == c.completeness_permille
    &&& f.missing_signals@ == c.missing_signals@
    &&& f.status == c.status
    &&& f.entry_point_node_ids@ == p.entry_point_node_ids@
    &&& f.node_ids@ == p.member_node_ids@
    &&& f.edge_ids@ == c.edge_ids@
    &&& f.memberships@.len() == kept_memberships(c.memberships@, p.member_node_ids@).len()
    &&& forall|k: int| 0 <= k < f.memberships@.len()
        ==> relabeled(kept_memberships(c.memberships@, p.member_node_ids@)[k], #[trigger] f.memberships@[k])
    &&& f.routes@ == c.routes@
    &&& f.pages@ == c.pages@
    &&& f.services@ == c.services@
    &&& f.repositories@ == c.repositories@
    &&& f.models@ == c.models@
    &&& f.entities@ == c.entities@
    &&& f.templates@ == c.templates@
    &&& f.tests@ == c.tests@
    &&& f.external_services@ == c.external_services@
    &&& f.business_rules@ == p.business_rules@
    &&& f.inputs@ == p.inputs@
    &&& f.outputs@ == p.outputs@
    &&& f.side_effects@ == p.side_effects@
    &&& f.security_constraints@ == p.security_constraints@
    &&& f.source_hash == c.source_hash
    &&& f.ai_provider matches Some(s) && s@ == provider
    &&& f.ai_model matches Some(s) && s@ == model
    &&& f.prompt_version@ == "feature-detection-v1"@
    &&& f.created_at == c.created_at
    &&& f.updated_at == c.updated_at
}

// ---------------------------------------------------------------------------
// Executable parts
// ---------------------------------------------------------------------------

fn find_candidate(cands: &Vec<Feature>, id: &str) -> (res: Option<usize>)
    ensures
        match res {
            Some(i) => last_candidate_at(cands@, id@, i as int) && candidate_for(cands@, id@) == Some(cands@[i as int]),
            None => candidate_for(cands@, id@) is None,
        },
{
    let mut found: Option<usize> = None;
    let mut k: usize = 0;
    while k < cands.len()
        invariant
            k <= cands@.len(),
            match found {
                Some(i) => i < k && cands@[i as int].id@ == id@ && forall|j: int| i < j < k ==> cands@[j].id@ != id@,
                None => forall|j: int| 0 <= j < k ==> cands@[j].id@ != id@,
            },
        decreases cands.len() - k,
    {
        if str_equal(cands[k].id.as_str(), id) {
            found = Some(k);
        }
        k = k + 1;
    }
    match found {
        Some(i) => {
            proof {
                assert(last_candidate_at(cands@, id@, i as int));
                let c = choose|c: int| last_candidate_at(cands@, id@, c);
                if c < i {
                    assert(cands@[i as int].id@ == id@);
                }
                if i < c {
                    assert(cands@[c].id@ == id@);
                }
            }
            Some(i)
        },
        None => None,
    }
}

fn listed(ids: &Vec<String>, id: &str) -> (res: bool)
    ensures
        res == id_listed(ids@, id@),
{
    let mut j: usize = 0;
    while j < ids.len()
        invariant
            j <= ids@.len(),
            forall|i: int| 0 <= i < j ==> ids@[i]@ != id@,
        decreases ids.len() - j,
    {
        if str_equal(ids[j].as_str(), id) {
            return true;
        }
        j = j + 1;
    }
    false
}

fn members_ok(graph: &ProjectGraph, cand: &Feature, members: &Vec<String>) -> (res: bool)
    ensures
        res == members_allowed(*graph, *cand, members@),
{
    if members.len() == 0 {
        return false;
    }
    let mut k: usize = 0;
    while k < members.len()
        invariant
            k <= members@.len(),
            forall|j: int| 0 <= j < k ==> id_listed(cand.node_ids@, #[trigger] members@[j]@) && graph.has_node(members@[j]@),
        decreases members.len() - k,
    {
        if !listed(&cand.node_ids, members[k].as_str()) || graph.find_node_index(members[k].as_str()).is_none() {
            return false;
        }
        k = k + 1;
    }
    true
}

fn entries_ok(cand: &Feature, entries: &Vec<String>) -> (res: bool)
    ensures
        res == entries_allowed(*cand, entries@),
{
    if entries.len() == 0 {
        return false;
    }
    let mut k: usize = 0;
    while k < entries.len()
        invariant
            k <= entries@.len(),
            forall|j: int| 0 <= j < k ==> id_listed(cand.entry_point_node_ids@, #[trigger] entries@[j]@),
        decreases entries.len() - k,
    {
        if !listed(&cand.entry_point_node_ids, entries[k].as_str()) {
            return false;
        }
        k = k + 1;
    }
    true
}

fn bounded_trim(s: &String, limit: usize) -> (res: String)
    ensures
        res@ == first_n(spec_trim(s@), limit as int),
{
    let t = trim(&chars_of(s.as_str()));
    let n = if t.len() <= limit { t.len() } else { limit };
    let kept = slice_chars(&t, 0, n);
    assert(t@.subrange(0, t@.len() as int) =~= t@);
    string_of(&kept)
}

fn relabel(ms: &Vec<FeatureMembership>, members: &Vec<String>) -> (res: Vec<FeatureMembership>)
    ensures
        res@.len() == kept_memberships(ms@, members@).len(),
        forall|k: int| 0 <= k < res@.len() ==> relabeled(kept_memberships(ms@, members@)[k], #[trigger] res@[k]),
{
    let mut out: Vec<FeatureMembership> = Vec::new();
    let mut k: usize = 0;
    while k < ms.len()
        invariant
            k <= ms@.len(),
            out@.len() == kept_memberships(ms@.subrange(0, k as int), members@).len(),
            forall|j: int| 0 <= j < out@.len() ==> relabeled(kept_memberships(ms@.subrange(0, k as int), members@)[j], #[trigger] out@[j]),
        decreases ms.len() - k,
    {
        let ghost before = kept_memberships(ms@.subrange(0, k as int), members@);
        assert(ms@.subrange(0, k + 1).drop_last() =~= ms@.subrange(0, k as int));
        assert(ms@.subrange(0, k + 1).last() == ms@[k as int]);
        let m = &ms[k];
        if listed(members, m.node_id.as_str()) {
            out.push(FeatureMembership {
                node_id: m.node_id.clone(),
                confidence_permille: m.confidence_permille,
                reason: String::from_str("AI semantic selection constrained to deterministic candidate"),
                source: MembershipSource::Ai,
                optional: m.optional,
                external_dependency: m.external_dependency,
            });
            assert(kept_memberships(ms@.subrange(0, k + 1), members@) == before.push(ms@[k as int]));
        }
        k = k + 1;
    }
    assert(ms@.subrange(0, ms@.len() as int) =~= ms@);
    out
}

fn blend(candidate: u32, proposed: u32) -> (res: u32)
    ensures
        res == blended_confidence(candidate, proposed),
{
    let q: u64 = if proposed <= 1000 { proposed as u64 } else { 1000 };
    let v: u64 = (candidate as u64 * 650 + q * 350) / 1000;
    if v <= 1000 { v as u32 } else { 1000 }
}

fn apply_one(cand: &Feature, p: AiFeatureProposal, provider: &str, model: &str) -> (res: Feature)
    ensures
        applied(*cand, p, provider@, model@, res),
{
    let name = bounded_trim(&p.name, 120);
    let description = bounded_trim(&p.description, 2000);
    let memberships = relabel(&cand.memberships, &p.member_node_ids);
    let confidence = blend(cand.confidence_permille, p.confidence_permille);
    Feature {
        id: cand.id.clone(),
        project_id: cand.project_id.clone(),
        name,
        description,
        confidence_permille: confidence,
        completeness_permille: cand.completeness_permille,
        missing_signals: crate::text::copy_strings(&cand.missing_signals),
        status: cand.status,
        entry_point_node_ids: p.entry_point_node_ids,
        node_ids: p.member_node_ids,
        edge_ids: crate::text::copy_strings(&cand.edge_ids),
        memberships,
        routes: crate::text::copy_strings(&cand.routes),
        pages: crate::text::copy_strings(&cand.pages),
        services: crate::text::copy_strings(&cand.services),
        repositories: crate::text::copy_strings(&cand.repositories),
        models: crate::text::copy_strings(&cand.models),
        entities: crate::text::copy_strings(&cand.entities),
        templates: crate::text::copy_strings(&cand.templates),
        tests: crate::text::copy_strings(&cand.tests),
        external_services: crate::text::copy_strings(&cand.external_services),
        business_rules: p.business_rules,
        inputs: p.inputs,
        outputs: p.outputs,
        side_effects: p.side_effects,
        security_constraints: p.security_constraints,
        source_hash: cand.source_hash.clone(),
        ai_provider: Some(String::from_str(provider)),
        ai_model: Some(String::from_str(model)),
        prompt_version: String::from_str("feature-detection-v1"),
        created_at: cand.created_at,
        updated_at: cand.updated_at,
    }
}

proof fn lemma_applied_validity(g: ProjectGraph, c: Feature, p: AiFeatureProposal, provider: Seq<char>, model: Seq<char>, f: Feature)
    requires
        applied(c, p, provider, model, f),
    ensures
        spec_feature_valid(g, f) == yields_valid(g, c, p),
{
}

/// Applies a model's proposals to the deterministic candidates, each proposal to the last
/// candidate carrying its id. A proposal may only narrow the candidate: its members must be
/// members of the candidate and nodes of the graph, its entry points entry points of the
/// candidate, both non-empty, and the resulting feature must validate. The first refused
/// proposal fails the whole answer, as does an answer without proposals.
pub fn apply_ai_feature_proposals(
    graph: &ProjectGraph,
    candidates: &Vec<Feature>,
    proposals: AiFeatureProposals,
    provider: &str,
    model: &str,
) -> (res: Result<Vec<Feature>, String>)
    ensures
        res is Ok <==> proposals.features@.len() > 0
            && forall|k: int| 0 <= k < proposals.features@.len()
                ==> proposal_accepted(*graph, candidates@, #[trigger] proposals.features@[k]),
        res matches Ok(fs) ==> fs@.len() == proposals.features@.len()
            && forall|k: int| 0 <= k < fs@.len() ==> applied(
                candidate_for(candidates@, proposals.features@[k].candidate_id@)->0,
                proposals.features@[k],
                provider@,
                model@,
                #[trigger] fs@[k],
            ) && spec_feature_valid(*graph, fs@[k]),
        res matches Err(e) ==> (proposals.features@.len() == 0 ==> e@ == "AI returned no feature proposals"@),
        res matches Err(e) ==> forall|k: int| 0 <= k < proposals.features@.len()
            && (forall|j: int| 0 <= j < k ==> proposal_accepted(*graph, candidates@, #[trigger] proposals.features@[j]))
            && proposal_refusal(*graph, candidates@, proposals.features@[k]) is Some
            ==> e@ == proposal_refusal(*graph, candidates@, #[trigger] proposals.features@[k])->0,
{
    let ghost ps = proposals.features@;
    let mut rest = proposals.features;
    let mut result: Vec<Feature> = Vec::new();
    let n = rest.len();
    let mut k: usize = 0;
    while k < n
        invariant
            k <= n == ps.len(),
            ps == proposals.features@,
            rest@.len() == n,
            forall|j: int| k <= j < n ==> rest@[j] == ps[j],
            result@.len() == k,
            forall|j: int| 0 <= j < k ==> proposal_accepted(*graph, candidates@, #[trigger] ps[j]),
            forall|j: int| 0 <= j < k ==> applied(candidate_for(candidates@, ps[j].candidate_id@)->0, ps[j], provider@, model@, #[trigger] result@[j])
                && spec_feature_valid(*graph, result@[j]),
        decreases n - k,
    {
        let mut p = AiFeatureProposal {
            candidate_id: String::new(),
            name: String::new(),
            description: String::new(),
            member_node_ids: Vec::new(),
            entry_point_node_ids: Vec::new(),
            business_rules: Vec::new(),
            inputs: Vec::new(),
            outputs: Vec::new(),
            side_effects: Vec::new(),
            security_constraints: Vec::new(),
            confidence_permille: 0,
        };
        std::mem::swap(&mut p, &mut rest[k]);
        assert(p == ps[k as int]);
        let ci = match find_candidate(candidates, p.candidate_id.as_str()) {
            None => {
                assert(!proposal_accepted(*graph, candidates@, ps[k as int]));
                return Err(concat_str("unknown candidate ", p.candidate_id.as_str()));
            },
            Some(i) => i,
        };
        let cand = &candidates[ci];
        if !members_ok(graph, cand, &p.member_node_ids) {
            assert(!proposal_accepted(*graph, candidates@, ps[k as int]));
            return Err(concat_str("invalid member in proposal ", p.candidate_id.as_str()));
        }
        if !entries_ok(cand, &p.entry_point_node_ids) {
            assert(!proposal_accepted(*graph, candidates@, ps[k as int]));
            return Err(concat_str("invalid entry point in proposal ", p.candidate_id.as_str()));
        }
        let ghost pk = p;
        let value = apply_one(cand, p, provider, model);
        proof {
            lemma_applied_validity(*graph, *cand, pk, provider@, model@, value);
        }
        match validate_feature(graph, &value) {
            Ok(()) => {},
            Err(e) => {
                assert(!proposal_accepted(*graph, candidates@, ps[k as int]));
                assert(proposal_refusal(*graph, candidates@, ps[k as int]) is None);
                return Err(e);
            },
        }
        result.push(value);
        k = k + 1;
    }
    if result.len() == 0 {
        return Err(String::from_str("AI returned no feature proposals"));
    }
    Ok(result)
}


// ---------------------------------------------------------------------------
// Completing detected features
// ---------------------------------------------------------------------------

/// A model's completion of a detected feature: nodes to add, signals it finds missing, and
/// its completeness estimate in thousandths.
#[derive(Clone, Debug)]
pub struct AiFeatureCompletenessProposal {
    pub feature_id: String,
    pub additional_node_ids: Vec<String>,
    pub missing_signals: Vec<String>,
    pub completeness_permille: u32,
}

/// The completions of one model answer.
#[derive(Clone, Debug)]
pub struct AiFeatureCompletenessProposals {
    pub features: Vec<AiFeatureCompletenessProposal>,
}

/// `i` is the first feature carrying `id`.
pub open spec fn first_feature_at(fs: Seq<Feature>, id: Seq<char>, i: int) -> bool {
    &&& 0 <= i < fs.len()
    &&& fs[i].id@ == id
    &&& forall|j: int| 0 <= j < i ==> fs[j].id@ != id
}

/// The position of the feature a completion designates, if any.
pub open spec fn feature_index(fs: Seq<Feature>, id: Seq<char>) -> Option<int> {
    if exists|i: int| first_feature_at(fs, id, i) {
        Some(choose|i: int| first_feature_at(fs, id, i))
    } else {
        None
    }
}

/// The edge `e` joins `node` to one of `members`, in either direction.
pub open spec fn links(g: ProjectGraph, members: Seq<String>, node: Seq<char>, e: int) -> bool {
    &&& 0 <= e < g.edges@.len()
    &&& (g.edges@[e].source_id@ == node && id_listed(members, g.edges@[e].target_id@))
        || (g.edges@[e].target_id@ == node && id_listed(members, g.edges@[e].source_id@))
}

/// `e` is the first edge joining `node` to one of `members`.
pub open spec fn first_link(g: ProjectGraph, members: Seq<String>, node: Seq<char>, e: int) -> bool {
    links(g, members, node, e) && forall|j: int| 0 <= j < e ==> !links(g, members, node, j)
}

/// The first edge joining `node` to one of `members`, if any.
pub open spec fn linking_edge(g: ProjectGraph, members: Seq<String>, node: Seq<char>) -> Option<CodeEdge> {
    if exists|e: int| first_link(g, members, node, e) {
        Some(g.edges@[choose|e: int| first_link(g, members, node, e)])
    } else {
        None
    }
}

/// Why `id` cannot be added to a feature whose members are `members`, if it cannot: it
/// must be a first-party node of the graph joined by an edge to a member.
pub open spec fn addition_refusal(g: ProjectGraph, members: Seq<String>, id: Seq<char>) -> Option<Seq<char>> {
    if !g.has_node(id) {
        Some("unknown completeness node: "@ + id)
    } else if !g.nodes@[g.node_index(id)].source_scope.spec_library_eligible() {
        Some("external completeness member: "@ + id)
    } else if linking_edge(g, members, id) is None {
        Some("non-neighbor completeness member: "@ + id)
    } else {
        None
    }
}

/// `j` is the first of `ids` that cannot be added.
pub open spec fn refused_at(g: ProjectGraph, members: Seq<String>, ids: Seq<String>, j: int) -> bool {
    &&& 0 <= j < ids.len()
    &&& addition_refusal(g, members, ids[j]@) is Some
    &&& forall|i: int| 0 <= i < j ==> addition_refusal(g, members, ids[i]@) is None
}

/// `current` followed by each of `ids` not listed yet, in order.
pub open spec fn with_additions(current: Seq<Seq<char>>, ids: Seq<Seq<char>>) -> Seq<Seq<char>>
    decreases ids.len(),
{
    if ids.len() == 0 {
        current
    } else {
        let c = with_additions(current, ids.drop_last());
        if c.contains(ids.last()) { c } else { c.push(ids.last()) }
    }
}

/// The reason given to a member the model added through `edge`.
pub open spec fn completion_reason(edge: CodeEdge) -> Seq<char> {
    "compl\u{e9}ment IA valid\u{e9} par la relation persist\u{e9}e "@ + edge.relation.spec_name()
}

/// `m` records the model's addition of `id`, joined to `members` by its first linking edge.
pub open spec fn added_membership(g: ProjectGraph, members: Seq<String>, id: Seq<char>, m: FeatureMembership) -> bool {
    &&& m.node_id@ == id
    &&& m.confidence_permille == 720
    &&& m.reason@ == completion_reason(linking_edge(g, members, id)->0)
    &&& m.source == MembershipSource::Ai
    &&& !m.optional
    &&& !m.external_dependency
}

/// `after` is `f` with the ids `ids` added: each one not yet a member becomes a member,
/// with a membership credited to the model; nothing else changes.
pub open spec fn extended(g: ProjectGraph, f: Feature, ids: Seq<String>, after: Feature) -> bool {
    let all = with_additions(views(f.node_ids@), views(ids));
    let base = f.memberships@.len();
    let first_new = f.node_ids@.len();
    &&& views(after.node_ids@) == all
    &&& after.node_ids@.subrange(0, first_new as int) == f.node_ids@
    &&& after.memberships@.len() == base + all.len() - first_new
    &&& after.memberships@.subrange(0, base as int) == f.memberships@
    &&& forall|k: int| base <= k < after.memberships@.len()
        ==> added_membership(g, f.node_ids@, all[first_new + k - base], #[trigger] after.memberships@[k])
    &&& after == (Feature { node_ids: after.node_ids, memberships: after.memberships, ..f })
}

/// The ids of the graph's edges between members, in graph order.
pub open spec fn inner_edge_ids(edges: Seq<CodeEdge>, members: Seq<String>) -> Seq<Seq<char>>
    decreases edges.len(),
{
    if edges.len() == 0 {
        Seq::empty()
    } else {
        let rest = inner_edge_ids(edges.drop_last(), members);
        let e = edges.last();
        if id_listed(members, e.source_id@) && id_listed(members, e.target_id@) { rest.push(e.id@) } else { rest }
    }
}

/// A signal the model reports: trimmed, at most 240 characters, prefixed; none when blank.
pub open spec fn ai_signal(s: Seq<char>) -> Option<Seq<char>> {
    let t = first_n(spec_trim(s), 240);
    if t.len() == 0 { None } else { Some("Analyse IA : "@ + t) }
}

/// `x` is reported by one of the model's first 10 signals.
pub open spec fn reported(signals: Seq<String>, x: Seq<char>) -> bool {
    exists|k: int| 0 <= k < signals.len() && k < 10 && #[trigger] ai_signal(signals[k]@) == Some(x)
}

/// The completeness after a completion, in thousandths rounded down: 75% of the
/// deterministic score and 25% of the model's (at most 1 000), at most 1 000.
pub open spec fn blended_completeness(deterministic: int, proposed: u32) -> int {
    let q: int = if proposed <= 1000 { proposed as int } else { 1000 };
    let v: int = (deterministic * 750 + q * 250) / 1000;
    if v <= 1000 { v } else { 1000 }
}

/// `after` is `f` completed by `p`: members added, edges between members listed in graph
/// order, facets recomputed, completeness blended, missing signals sorted and unique
/// (the deterministic ones and the model's), fingerprint of members and edges, prompt
/// version updated; nothing else changes.
pub open spec fn completed(g: ProjectGraph, roles: Seq<ArchitectureRole>, f: Feature, p: AiFeatureCompletenessProposal, after: Feature) -> bool {
    let all = with_additions(views(f.node_ids@), views(p.additional_node_ids@));
    let base = f.memberships@.len();
    let first_new = f.node_ids@.len();
    &&& views(after.node_ids@) == all
    &&& after.node_ids@.subrange(0, first_new as int) == f.node_ids@
    &&& after.memberships@.len() == base + all.len() - first_new
    &&& after.memberships@.subrange(0, base as int) == f.memberships@
    &&& forall|k: int| base <= k < after.memberships@.len()
        ==> added_membership(g, f.node_ids@, all[first_new + k - base], #[trigger] after.memberships@[k])
    &&& views(after.edge_ids@) == inner_edge_ids(g.edges@, after.node_ids@)
    &&& facets_hold(g, after)
    &&& after.completeness_permille == blended_completeness(spec_completeness(g, roles, after), p.completeness_permille)
    &&& strictly_sorted(views(after.missing_signals@))
    &&& forall|x: Seq<char>| #[trigger] views(after.missing_signals@).contains(x)
        <==> (spec_missing_signals(g, roles, after).contains(x) || reported(p.missing_signals@, x))
    &&& after.source_hash@ == spec_stable_hash(views(after.node_ids@) + views(after.edge_ids@))
    &&& after.prompt_version@ == "feature-detection-v2"@
    &&& after == (Feature {
        node_ids: after.node_ids,
        memberships: after.memberships,
        edge_ids: after.edge_ids,
        routes: after.routes,
        pages: after.pages,
        services: after.services,
        repositories: after.repositories,
        models: after.models,
        entities: after.entities,
        templates: after.templates,
        tests: after.tests,
        completeness_permille: after.completeness_permille,
        missing_signals: after.missing_signals,
        source_hash: after.source_hash,
        prompt_version: after.prompt_version,
        ..f
    })
}

/// Every proposed node can be added to `f`.
pub open spec fn additions_allowed(g: ProjectGraph, f: Feature, p: AiFeatureCompletenessProposal) -> bool {
    forall|j: int| 0 <= j < p.additional_node_ids@.len() ==> addition_refusal(g, f.node_ids@, #[trigger] p.additional_node_ids@[j]@) is None
}

/// A completion of `f` succeeds and yields `after`.
pub open spec fn completion_ok(g: ProjectGraph, roles: Seq<ArchitectureRole>, f: Feature, p: AiFeatureCompletenessProposal, after: Feature) -> bool {
    additions_allowed(g, f, p) && completed(g, roles, f, p, after) && spec_feature_valid(g, after)
}

/// A completion of `f` fails and leaves `after`: at the first node that cannot be added,
/// with the nodes before it added, or after the completion when the result is invalid.
pub open spec fn completion_failed(g: ProjectGraph, roles: Seq<ArchitectureRole>, f: Feature, p: AiFeatureCompletenessProposal, after: Feature) -> bool {
    if exists|j: int| refused_at(g, f.node_ids@, p.additional_node_ids@, j) {
        let j = choose|j: int| refused_at(g, f.node_ids@, p.additional_node_ids@, j);
        extended(g, f, p.additional_node_ids@.subrange(0, j), after)
    } else {
        completed(g, roles, f, p, after) && !spec_feature_valid(g, after)
    }
}

/// The message of a failed completion of `f`, when it is not the validation's.
pub open spec fn completion_message(g: ProjectGraph, f: Feature, p: AiFeatureCompletenessProposal) -> Option<Seq<char>> {
    if exists|j: int| refused_at(g, f.node_ids@, p.additional_node_ids@, j) {
        let j = choose|j: int| refused_at(g, f.node_ids@, p.additional_node_ids@, j);
        addition_refusal(g, f.node_ids@, p.additional_node_ids@[j]@)
    } else {
        None
    }
}

/// A completion applied to the list `before` succeeds and yields `after`.
pub open spec fn step_ok(g: ProjectGraph, roles: Seq<ArchitectureRole>, before: Seq<Feature>, p: AiFeatureCompletenessProposal, after: Seq<Feature>) -> bool {
    match feature_index(before, p.feature_id@) {
        None => false,
        Some(i) => after.len() == before.len() && (forall|j: int| 0 <= j < before.len() && j != i ==> after[j] == before[j])
            && completion_ok(g, roles, before[i], p, after[i]),
    }
}

/// A completion applied to the list `before` fails and leaves `after`.
pub open spec fn step_failed(g: ProjectGraph, roles: Seq<ArchitectureRole>, before: Seq<Feature>, p: AiFeatureCompletenessProposal, after: Seq<Feature>) -> bool {
    match feature_index(before, p.feature_id@) {
        None => after == before,
        Some(i) => after.len() == before.len() && (forall|j: int| 0 <= j < before.len() && j != i ==> after[j] == before[j])
            && completion_failed(g, roles, before[i], p, after[i]),
    }
}

/// The message of a failed step, when it is not the validation's.
pub open spec fn step_message(g: ProjectGraph, before: Seq<Feature>, p: AiFeatureCompletenessProposal) -> Option<Seq<char>> {
    match feature_index(before, p.feature_id@) {
        None => Some("unknown feature "@ + p.feature_id@),
        Some(i) => completion_message(g, before[i], p),
    }
}

/// `trace` lists the feature lists as the first `trace.len() - 1` completions of `ps`
/// succeeded one after the other.
pub open spec fn completions_ok(g: ProjectGraph, roles: Seq<ArchitectureRole>, ps: Seq<AiFeatureCompletenessProposal>, trace: Seq<Seq<Feature>>) -> bool {
    &&& trace.len() >= 1
    &&& trace.len() - 1 <= ps.len()
    &&& forall|j: int| 0 <= j < trace.len() - 1 ==> step_ok(g, roles, #[trigger] trace[j], ps[j], trace[j + 1])
}

fn find_feature(fs: &Vec<Feature>, id: &str) -> (res: Option<usize>)
    ensures
        match res {
            Some(i) => feature_index(fs@, id@) == Some(i as int),
            None => feature_index(fs@, id@) is None,
        },
{
    let mut k: usize = 0;
    while k < fs.len()
        invariant
            k <= fs@.len(),
            forall|j: int| 0 <= j < k ==> fs@[j].id@ != id@,
        decreases fs.len() - k,
    {
        if str_equal(fs[k].id.as_str(), id) {
            proof {
                assert(first_feature_at(fs@, id@, k as int));
                let c = choose|c: int| first_feature_at(fs@, id@, c);
                if c < k {
                    assert(fs@[c].id@ == id@);
                }
                if k < c {
                    assert(fs@[k as int].id@ == id@);
                }
            }
            return Some(k);
        }
        k = k + 1;
    }
    None
}

fn find_link(graph: &ProjectGraph, members: &Vec<String>, node: &str) -> (res: Option<usize>)
    ensures
        match res {
            Some(e) => first_link(*graph, members@, node@, e as int) && linking_edge(*graph, members@, node@) == Some(graph.edges@[e as int]),
            None => linking_edge(*graph, members@, node@) is None,
        },
{
    let mut e: usize = 0;
    while e < graph.edges.len()
        invariant
            e <= graph.edges@.len(),
            forall|j: int| 0 <= j < e ==> !links(*graph, members@, node@, j),
        decreases graph.edges.len() - e,
    {
        let edge = &graph.edges[e];
        if (str_equal(edge.source_id.as_str(), node) && listed(members, edge.target_id.as_str()))
            || (str_equal(edge.target_id.as_str(), node) && listed(members, edge.source_id.as_str())) {
            proof {
                assert(first_link(*graph, members@, node@, e as int));
                let c = choose|c: int| first_link(*graph, members@, node@, c);
                if c < e {
                    assert(!links(*graph, members@, node@, c));
                }
                if e < c {
                    assert(!links(*graph, members@, node@, e as int));
                }
            }
            return Some(e);
        }
        e = e + 1;
    }
    None
}

fn inner_edges(graph: &ProjectGraph, members: &Vec<String>) -> (res: Vec<String>)
    ensures
        views(res@) == inner_edge_ids(graph.edges@, members@),
{
    let ghost edges = graph.edges@;
    let mut out: Vec<String> = Vec::new();
    let mut k: usize = 0;
    while k < graph.edges.len()
        invariant
            k <= edges.len(),
            edges == graph.edges@,
            views(out@) == inner_edge_ids(edges.subrange(0, k as int), members@),
        decreases graph.edges.len() - k,
    {
        assert(edges.subrange(0, k + 1).drop_last() =~= edges.subrange(0, k as int));
        assert(edges.subrange(0, k + 1).last() == edges[k as int]);
        let e = &graph.edges[k];
        if listed(members, e.source_id.as_str()) && listed(members, e.target_id.as_str()) {
            out.push(e.id.clone());
            assert(views(out@) =~= inner_edge_ids(edges.subrange(0, k as int), members@).push(e.id@));
        }
        k = k + 1;
    }
    assert(edges.subrange(0, edges.len() as int) =~= edges);
    out
}

fn blend_completeness(deterministic: u32, proposed: u32) -> (res: u32)
    requires
        deterministic <= 1000,
    ensures
        res == blended_completeness(deterministic as int, proposed),
{
    let q: u64 = if proposed <= 1000 { proposed as u64 } else { 1000 };
    let v: u64 = (deterministic as u64 * 750 + q * 250) / 1000;
    if v <= 1000 { v as u32 } else { 1000 }
}

fn ai_signal_of(s: &String) -> (res: Option<String>)
    ensures
        match res {
            Some(t) => ai_signal(s@) == Some(t@),
            None => ai_signal(s@) is None,
        },
{
    let t = bounded_trim(s, 240);
    if t.as_str().unicode_len() == 0 {
        None
    } else {
        Some(concat_str("Analyse IA : ", t.as_str()))
    }
}

fn merged_signals(deterministic: &Vec<String>, signals: &Vec<String>) -> (res: Vec<String>)
    ensures
        strictly_sorted(views(res@)),
        forall|x: Seq<char>| #[trigger] views(res@).contains(x) <==> (views(deterministic@).contains(x) || reported(signals@, x)),
{
    let mut out: Vec<String> = Vec::new();
    let mut k: usize = 0;
    while k < deterministic.len()
        invariant
            k <= deterministic@.len(),
            strictly_sorted(views(out@)),
            forall|x: Seq<char>| #[trigger] views(out@).contains(x) <==> views(deterministic@.subrange(0, k as int)).contains(x),
        decreases deterministic.len() - k,
    {
        insert_sorted_unique(&mut out, deterministic[k].clone());
        proof {
            assert(views(deterministic@.subrange(0, k + 1)) =~= views(deterministic@.subrange(0, k as int)).push(deterministic@[k as int]@));
            crate::text::lemma_contains_push(views(deterministic@.subrange(0, k as int)), deterministic@[k as int]@);
        }
        k = k + 1;
    }
    assert(deterministic@.subrange(0, deterministic@.len() as int) =~= deterministic@);
    let limit = if signals.len() <= 10 { signals.len() } else { 10 };
    let mut j: usize = 0;
    while j < limit
        invariant
            j <= limit <= signals@.len(),
            limit <= 10,
            limit == signals@.len() || limit == 10,
            strictly_sorted(views(out@)),
            forall|x: Seq<char>| #[trigger] views(out@).contains(x) <==> (views(deterministic@).contains(x)
                || exists|i: int| 0 <= i < j && #[trigger] ai_signal(signals@[i]@) == Some(x)),
        decreases limit - j,
    {
        match ai_signal_of(&signals[j]) {
            Some(t) => {
                insert_sorted_unique(&mut out, t);
            },
            None => {},
        }
        j = j + 1;
    }
    proof {
        assert forall|x: Seq<char>| #[trigger] views(out@).contains(x) <==> (views(deterministic@).contains(x) || reported(signals@, x)) by {
            if reported(signals@, x) {
                let i = choose|i: int| 0 <= i < signals@.len() && i < 10 && #[trigger] ai_signal(signals@[i]@) == Some(x);
                assert(i < limit);
            }
        }
    }
    out
}


proof fn lemma_additions_prefix(current: Seq<Seq<char>>, ids: Seq<Seq<char>>)
    ensures
        with_additions(current, ids).len() >= current.len(),
        with_additions(current, ids).subrange(0, current.len() as int) == current,
    decreases ids.len(),
{
    if ids.len() > 0 {
        lemma_additions_prefix(current, ids.drop_last());
        let c = with_additions(current, ids.drop_last());
        if !c.contains(ids.last()) {
            assert(c.push(ids.last()).subrange(0, current.len() as int) =~= c.subrange(0, current.len() as int));
        }
    }
}

proof fn lemma_refused_here(g: ProjectGraph, f0: Feature, a: Seq<String>, j: int)
    requires
        0 <= j < a.len(),
        addition_refusal(g, f0.node_ids@, a[j]@) is Some,
        forall|i: int| 0 <= i < j ==> addition_refusal(g, f0.node_ids@, #[trigger] a[i]@) is None,
    ensures
        exists|x: int| refused_at(g, f0.node_ids@, a, x),
        (choose|x: int| refused_at(g, f0.node_ids@, a, x)) == j,
{
    assert(refused_at(g, f0.node_ids@, a, j));
    let c = choose|x: int| refused_at(g, f0.node_ids@, a, x);
    if c < j {
        assert(addition_refusal(g, f0.node_ids@, a[c]@) is None);
    }
    if j < c {
        assert(addition_refusal(g, f0.node_ids@, a[j]@) is None);
    }
}

fn complete_one(graph: &ProjectGraph, roles: &Vec<ArchitectureRole>, f: &mut Feature, p: &AiFeatureCompletenessProposal) -> (res: Result<(), String>)
    requires
        roles@.len() == graph.nodes@.len(),
    ensures
        res is Ok ==> completion_ok(*graph, roles@, *old(f), *p, *final(f)),
        res is Err ==> completion_failed(*graph, roles@, *old(f), *p, *final(f)),
        res matches Err(e) ==> (completion_message(*graph, *old(f), *p) matches Some(m) ==> e@ == m),
{
    let ghost f0 = *f;
    let ghost g = *graph;
    let existing = crate::text::copy_strings(&f.node_ids);
    let adds = &p.additional_node_ids;
    let ghost a = adds@;
    let mut j: usize = 0;
    proof {
        assert(a.subrange(0, 0) =~= Seq::<String>::empty());
        assert(views(a.subrange(0, 0)) =~= Seq::<Seq<char>>::empty());
        assert(f.node_ids@.subrange(0, f0.node_ids@.len() as int) =~= f0.node_ids@);
        assert(f.memberships@.subrange(0, f0.memberships@.len() as int) =~= f0.memberships@);
    }
    while j < adds.len()
        invariant
            j <= a.len(),
            a == p.additional_node_ids@,
            adds@ == a,
            g == *graph,
            f0 == *old(f),
            existing@ == f0.node_ids@,
            forall|i: int| 0 <= i < j ==> addition_refusal(g, f0.node_ids@, #[trigger] a[i]@) is None,
            extended(g, f0, a.subrange(0, j as int), *f),
        decreases a.len() - j,
    {
        let id = &adds[j];
        let ghost before = *f;
        let ghost all = with_additions(views(f0.node_ids@), views(a.subrange(0, j as int)));
        let ni = match graph.find_node_index(id.as_str()) {
            None => {
                proof {
                    lemma_refused_here(g, f0, a, j as int);
                }
                return Err(concat_str("unknown completeness node: ", id.as_str()));
            },
            Some(i) => i,
        };
        if !graph.nodes[ni].source_scope.library_eligible() {
            proof {
                lemma_refused_here(g, f0, a, j as int);
            }
            return Err(concat_str("external completeness member: ", id.as_str()));
        }
        let e = match find_link(graph, &existing, id.as_str()) {
            None => {
                proof {
                    lemma_refused_here(g, f0, a, j as int);
                }
                return Err(concat_str("non-neighbor completeness member: ", id.as_str()));
            },
            Some(e) => e,
        };
        proof {
            assert(views(a.subrange(0, j + 1)) =~= views(a.subrange(0, j as int)).push(a[j as int]@));
            assert(views(a.subrange(0, j + 1)).drop_last() =~= views(a.subrange(0, j as int)));
            lemma_additions_prefix(views(f0.node_ids@), views(a.subrange(0, j as int)));
        }
        if !holds(&f.node_ids, id.as_str()) {
            f.node_ids.push(id.clone());
            let reason = concat_str("compl\u{e9}ment IA valid\u{e9} par la relation persist\u{e9}e ", graph.edges[e].relation.as_str());
            f.memberships.push(FeatureMembership {
                node_id: id.clone(),
                confidence_permille: 720,
                reason,
                source: MembershipSource::Ai,
                optional: false,
                external_dependency: false,
            });
            proof {
                let all2 = with_additions(views(f0.node_ids@), views(a.subrange(0, j + 1)));
                assert(all2 == all.push(id@));
                assert(views(f.node_ids@) =~= all2);
                assert(f.node_ids@.subrange(0, f0.node_ids@.len() as int) =~= before.node_ids@.subrange(0, f0.node_ids@.len() as int));
                assert(f.memberships@.subrange(0, f0.memberships@.len() as int) =~= before.memberships@.subrange(0, f0.memberships@.len() as int));
                let base = f0.memberships@.len();
                let first_new = f0.node_ids@.len();
                assert forall|k: int| base <= k < f.memberships@.len()
                    implies added_membership(g, f0.node_ids@, all2[first_new + k - base], #[trigger] f.memberships@[k]) by {
                    if k < before.memberships@.len() {
                        assert(f.memberships@[k] == before.memberships@[k]);
                        assert(all2[first_new + k - base] == all[first_new + k - base]);
                    }
                }
            }
        } else {
            proof {
                let all2 = with_additions(views(f0.node_ids@), views(a.subrange(0, j + 1)));
                assert(all2 == all);
            }
        }
        j = j + 1;
    }
    proof {
        assert(a.subrange(0, a.len() as int) =~= a);
    }
    let ghost added = *f;
    let edges = inner_edges(graph, &f.node_ids);
    f.edge_ids = edges;
    refresh_feature_facets(graph, roles, f);
    let ghost mid = *f;
    let deterministic = f.completeness_permille;
    let signals = merged_signals(&f.missing_signals, &p.missing_signals);
    let parts = joined_ids(&f.node_ids, &f.edge_ids);
    let hash = stable_hash(&parts);
    f.completeness_permille = blend_completeness(deterministic, p.completeness_permille);
    f.missing_signals = signals;
    f.source_hash = hash;
    f.prompt_version = String::from_str("feature-detection-v2");
    proof {
        lemma_facets_same_fields(g, mid, *f);
        assert(feature_signals(g, roles@, *f) == feature_signals(g, roles@, mid));
        assert(views(parts@) =~= views(f.node_ids@) + views(f.edge_ids@));
        assert(parts@.map_values(|q: String| q@) =~= views(parts@));
        assert(completed(g, roles@, f0, *p, *f));
    }
    match validate_feature(graph, f) {
        Ok(()) => Ok(()),
        Err(e) => {
            proof {
                assert(!exists|j: int| refused_at(g, f0.node_ids@, a, j));
            }
            Err(e)
        },
    }
}


/// Applies a model's completions to detected features, each to the first feature carrying
/// its id, in order. A node may only be added when it is a first-party node of the graph
/// joined by an edge to one of the feature's members as they were before the completion;
/// the completed feature must validate. The first failing completion stops the pass with its
/// message; completions before it stay applied, as do the nodes it added before the node
/// that failed. `roles[i]` is the architectural role of the graph's node `i`.
pub fn apply_ai_feature_completeness(
    graph: &ProjectGraph,
    roles: &Vec<ArchitectureRole>,
    features: &mut Vec<Feature>,
    proposals: AiFeatureCompletenessProposals,
) -> (res: Result<(), String>)
    requires
        roles@.len() == graph.nodes@.len(),
    ensures
        res is Ok ==> exists|trace: Seq<Seq<Feature>>| #[trigger] completions_ok(*graph, roles@, proposals.features@, trace)
            && trace.len() == proposals.features@.len() + 1 && trace[0] == old(features)@
            && trace.last() == final(features)@,
        res matches Err(e) ==> exists|trace: Seq<Seq<Feature>>| #[trigger] completions_ok(*graph, roles@, proposals.features@, trace)
            && trace.len() <= proposals.features@.len() && trace[0] == old(features)@
            && step_failed(*graph, roles@, trace.last(), proposals.features@[trace.len() - 1], final(features)@)
            && (step_message(*graph, trace.last(), proposals.features@[trace.len() - 1]) matches Some(m) ==> e@ == m),
{
    let ps = &proposals.features;
    let ghost g = *graph;
    let ghost start = features@;
    let ghost mut trace: Seq<Seq<Feature>> = seq![features@];
    let mut k: usize = 0;
    while k < ps.len()
        invariant
            k <= ps@.len(),
            ps@ == proposals.features@,
            g == *graph,
            roles@.len() == graph.nodes@.len(),
            start == old(features)@,
            trace.len() == k + 1,
            trace[0] == start,
            trace[k as int] == features@,
            completions_ok(g, roles@, ps@, trace),
        decreases ps.len() - k,
    {
        let p = &ps[k];
        let ghost before = features@;
        let i = match find_feature(features, p.feature_id.as_str()) {
            None => {
                proof {
                    assert(step_failed(g, roles@, trace.last(), ps@[k as int], features@));
                }
                return Err(concat_str("unknown feature ", p.feature_id.as_str()));
            },
            Some(i) => i,
        };
        let r = complete_one(graph, roles, &mut features[i], p);
        proof {
            assert(features@.len() == before.len());
            assert(forall|j: int| 0 <= j < before.len() && j != i ==> features@[j] == before[j]);
        }
        match r {
            Err(e) => {
                proof {
                    assert(step_failed(g, roles@, trace.last(), ps@[k as int], features@));
                }
                return Err(e);
            },
            Ok(()) => {
                proof {
                    assert(step_ok(g, roles@, before, ps@[k as int], features@));
                    let next = trace.push(features@);
                    assert forall|j: int| 0 <= j < next.len() - 1 implies step_ok(g, roles@, #[trigger] next[j], ps@[j], next[j + 1]) by {
                        if j < k {
                            assert(next[j] == trace[j] && next[j + 1] == trace[j + 1]);
                        }
                    }
                    trace = next;
                }
            },
        }
        k = k + 1;
    }
    Ok(())
}


// ---------------------------------------------------------------------------
// What a model may change
// ---------------------------------------------------------------------------

/// An accepted proposal only narrows its candidate: its members are members of the
/// candidate and nodes of the graph, its entry points entry points of the candidate, and
/// the feature it yields validates.
pub proof fn law_proposals_narrow_candidates(g: ProjectGraph, cands: Seq<Feature>, p: AiFeatureProposal)
    requires
        proposal_accepted(g, cands, p),
    ensures
        candidate_for(cands, p.candidate_id@) is Some,
        p.member_node_ids@.len() > 0,
        forall|k: int| 0 <= k < p.member_node_ids@.len() ==> id_listed(candidate_for(cands, p.candidate_id@)->0.node_ids@, #[trigger] p.member_node_ids@[k]@)
            && g.has_node(p.member_node_ids@[k]@),
        forall|k: int| 0 <= k < p.entry_point_node_ids@.len() ==> id_listed(candidate_for(cands, p.candidate_id@)->0.entry_point_node_ids@, #[trigger] p.entry_point_node_ids@[k]@),
        yields_valid(g, candidate_for(cands, p.candidate_id@)->0, p),
{
}

proof fn lemma_additions_from(current: Seq<Seq<char>>, ids: Seq<Seq<char>>, x: Seq<char>)
    requires
        with_additions(current, ids).contains(x),
    ensures
        current.contains(x) || ids.contains(x),
    decreases ids.len(),
{
    if ids.len() > 0 {
        let c = with_additions(current, ids.drop_last());
        if c.contains(x) {
            lemma_additions_from(current, ids.drop_last(), x);
            if ids.drop_last().contains(x) {
                let i = choose|i: int| 0 <= i < ids.drop_last().len() && ids.drop_last()[i] == x;
                assert(ids[i] == x);
            }
        } else {
            assert(c.push(ids.last()).contains(x));
            let i = choose|i: int| 0 <= i < c.push(ids.last()).len() && c.push(ids.last())[i] == x;
            assert(i == c.len());
            assert(ids[ids.len() - 1] == x);
        }
    }
}

/// A completion only adds persisted first-party neighbours: every member of the completed
/// feature that was not a member before is a first-party node of the graph joined by an
/// edge to a member of the feature as it was.
pub proof fn law_completion_adds_only_first_party_neighbours(
    g: ProjectGraph,
    roles: Seq<ArchitectureRole>,
    f: Feature,
    p: AiFeatureCompletenessProposal,
    after: Feature,
    x: Seq<char>,
)
    requires
        completion_ok(g, roles, f, p, after),
        crate::text::views(after.node_ids@).contains(x),
        !crate::text::views(f.node_ids@).contains(x),
    ensures
        g.has_node(x),
        g.nodes@[g.node_index(x)].source_scope.spec_library_eligible(),
        linking_edge(g, f.node_ids@, x) is Some,
{
    lemma_additions_from(views(f.node_ids@), views(p.additional_node_ids@), x);
    let ids = views(p.additional_node_ids@);
    let j = choose|j: int| 0 <= j < ids.len() && ids[j] == x;
    assert(addition_refusal(g, f.node_ids@, p.additional_node_ids@[j]@) is None);
}

} // verus!
