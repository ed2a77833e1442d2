//! Edits of detected features by their users: membership changes, merges and splits, each
//! checked against the graph before it may be saved.
use vstd::prelude::*;

use crate::dto::{FeatureMembershipRequest, SplitFeaturePart};
use crate::feature_detection::{facets_hold, lemma_facets_same_fields, refresh_feature_facets};
use crate::features::{
    ArchitectureRole, Feature, FeatureMembership, FeatureStatus, MembershipSource, edge_known, id_listed, spec_feature_valid,
    validate_feature,
};
use crate::hashing::{sha256_digest, spec_hex, spec_sha256, to_hex};
use crate::model::{CodeEdge, ProjectGraph, str_equal};
use crate::text::{append_chars, chars_of, holds, spec_join, string_of, views};
use crate::util::extend_unique;

verus! {

/// Why an edit was refused: an HTTP status and a message.
#[derive(Clone, Debug)]
pub struct EditError {
    pub status: u16,
    pub message: String,
}

fn refuse(status: u16, message: &str) -> (res: EditError)
    ensures
        res.status == status,
        res.message@ == message@,
{
    EditError { status, message: String::from_str(message) }
}

/// The result failed with this status.
pub open spec fn fails_with<T>(r: Result<T, EditError>, status: u16) -> bool {
    match r {
        Ok(_) => false,
        Err(e) => e.status == status,
    }
}

// ---------------------------------------------------------------------------
// Fingerprints
// ---------------------------------------------------------------------------

/// The short fingerprint of a text: the first 8 bytes of its SHA-256 digest, in hexadecimal.
pub open spec fn spec_short_digest(text: Seq<char>) -> Seq<char> {
    spec_hex(spec_sha256(vstd::utf8::encode_utf8(text)).subrange(0, 8))
}

/// The short fingerprint of a text.
pub fn short_digest(text: &str) -> (res: String)
    ensures
        res@ == spec_short_digest(text@),
        res@.len() == 16,
{
    let digest = sha256_digest(text.as_bytes());
    let mut head: Vec<u8> = Vec::new();
    let mut i: usize = 0;
    while i < 8
        invariant
            i <= 8,
            digest@.len() == 32,
            head@ == digest@.subrange(0, i as int),
        decreases 8 - i,
    {
        head.push(digest[i]);
        assert(head@ =~= digest@.subrange(0, i + 1));
        i = i + 1;
    }
    let hex = to_hex(head.as_slice());
    string_of(&hex)
}

/// The member ids joined by NUL characters.
pub open spec fn nul_joined_ids(ids: Seq<String>) -> Seq<char> {
    spec_join(views(ids), seq!['\0'])
}

fn join_ids(ids: &Vec<String>) -> (res: String)
    ensures
        res@ == nul_joined_ids(ids@),
{
    let mut pieces: Vec<Vec<char>> = Vec::new();
    let mut k: usize = 0;
    while k < ids.len()
        invariant
            k <= ids@.len(),
            pieces@.len() == k,
            forall|q: int| 0 <= q < k ==> (#[trigger] pieces@[q])@ == ids@[q]@,
        decreases ids.len() - k,
    {
        pieces.push(chars_of(ids[k].as_str()));
        k = k + 1;
    }
    let mut sep: Vec<char> = Vec::new();
    sep.push('\0');
    let joined = crate::text::join_chars(&pieces, pieces.len(), &sep);
    proof {
        assert(pieces@.subrange(0, pieces@.len() as int).map_values(|p: Vec<char>| p@) =~= views(ids@));
        assert(sep@ =~= seq!['\0']);
    }
    string_of(&joined)
}

// ---------------------------------------------------------------------------
// Edges between members
// ---------------------------------------------------------------------------

/// Both ends of the edge are members.
pub open spec fn inner_edge(ids: Seq<String>, e: CodeEdge) -> bool {
    views(ids).contains(e.source_id@) && views(ids).contains(e.target_id@)
}

/// Some edge of the graph with this id joins two members.
pub open spec fn joins_members(g: ProjectGraph, ids: Seq<String>, x: Seq<char>) -> bool {
    exists|e: int| 0 <= e < g.edges@.len() && #[trigger] g.edges@[e].id@ == x && inner_edge(ids, g.edges@[e])
}

/// The edges a feature lists connect its members: each kept id is that of an edge between
/// members, and every edge between members is listed.
pub open spec fn edges_between_members(g: ProjectGraph, f: Feature) -> bool {
    &&& forall|k: int| 0 <= k < f.edge_ids@.len() ==> joins_members(g, f.node_ids@, #[trigger] f.edge_ids@[k]@)
    &&& forall|e: int| 0 <= e < g.edges@.len() && inner_edge(f.node_ids@, #[trigger] g.edges@[e])
        ==> views(f.edge_ids@).contains(g.edges@[e].id@)
}

fn first_edge_with_id(graph: &ProjectGraph, id: &str) -> (res: Option<usize>)
    ensures
        match res {
            Some(e) => e < graph.edges@.len() && graph.edges@[e as int].id@ == id@ && forall|q: int| 0 <= q < e
                ==> graph.edges@[q].id@ != id@,
            None => forall|e: int| 0 <= e < graph.edges@.len() ==> graph.edges@[e].id@ != id@,
        },
{
    let mut e: usize = 0;
    while e < graph.edges.len()
        invariant
            e <= graph.edges@.len(),
            forall|q: int| 0 <= q < e ==> graph.edges@[q].id@ != id@,
        decreases graph.edges.len() - e,
    {
        if str_equal(graph.edges[e].id.as_str(), id) {
            return Some(e);
        }
        e = e + 1;
    }
    None
}

fn is_inner(ids: &Vec<String>, edge: &CodeEdge) -> (res: bool)
    ensures
        res == inner_edge(ids@, *edge),
{
    holds(ids, edge.source_id.as_str()) && holds(ids, edge.target_id.as_str())
}

/// Keeps the listed edges whose first graph edge joins two members, then lists, in graph
/// order, the edges between members not listed yet.
fn recompute_edges(graph: &ProjectGraph, feature: &mut Feature)
    ensures
        edges_between_members(*graph, *final(feature)),
        *final(feature) == (Feature { edge_ids: final(feature).edge_ids, ..*old(feature) }),
{
    let mut kept: Vec<String> = Vec::new();
    let mut k: usize = 0;
    while k < feature.edge_ids.len()
        invariant
            k <= feature.edge_ids@.len(),
            forall|q: int| 0 <= q < kept@.len() ==> joins_members(*graph, feature.node_ids@, #[trigger] kept@[q]@),
        decreases feature.edge_ids.len() - k,
    {
        match first_edge_with_id(graph, feature.edge_ids[k].as_str()) {
            Some(e) => {
                if is_inner(&feature.node_ids, &graph.edges[e]) {
                    kept.push(feature.edge_ids[k].clone());
                    assert forall|q: int| 0 <= q < kept@.len() implies joins_members(*graph, feature.node_ids@, #[trigger] kept@[q]@) by {
                        if q == kept@.len() - 1 {
                            assert(graph.edges@[e as int].id@ == kept@[q]@);
                        } else {
                            assert(kept@[q] == kept@.drop_last()[q]);
                        }
                    }
                }
            },
            None => {},
        }
        k = k + 1;
    }
    let mut e: usize = 0;
    while e < graph.edges.len()
        invariant
            e <= graph.edges@.len(),
            forall|q: int| 0 <= q < kept@.len() ==> joins_members(*graph, feature.node_ids@, #[trigger] kept@[q]@),
            forall|q: int| 0 <= q < e && inner_edge(feature.node_ids@, #[trigger] graph.edges@[q])
                ==> views(kept@).contains(graph.edges@[q].id@),
        decreases graph.edges.len() - e,
    {
        let edge = &graph.edges[e];
        let ghost before = views(kept@);
        if is_inner(&feature.node_ids, edge) && !holds(&kept, edge.id.as_str()) {
            kept.push(edge.id.clone());
            proof {
                assert(views(kept@) =~= before.push(edge.id@));
                crate::text::lemma_contains_push(before, edge.id@);
                assert forall|q: int| 0 <= q < kept@.len() implies joins_members(*graph, feature.node_ids@, #[trigger] kept@[q]@) by {
                    if q == kept@.len() - 1 {
                        assert(graph.edges@[e as int].id@ == kept@[q]@);
                    } else {
                        assert(kept@[q] == kept@.drop_last()[q]);
                    }
                }
            }
        }
        proof {
            assert forall|q: int| 0 <= q < e + 1 && inner_edge(feature.node_ids@, #[trigger] graph.edges@[q])
                implies views(kept@).contains(graph.edges@[q].id@) by {
                if q < e && views(kept@) != before {
                    crate::text::lemma_contains_push(before, edge.id@);
                }
            }
        }
        e = e + 1;
    }
    feature.edge_ids = kept;
}

// ---------------------------------------------------------------------------
// Membership changes
// ---------------------------------------------------------------------------

/// Some membership of the list concerns the node.
pub open spec fn has_membership(ms: Seq<FeatureMembership>, id: Seq<char>) -> bool {
    exists|i: int| 0 <= i < ms.len() && #[trigger] ms[i].node_id@ == id
}

/// The status with which a membership change is refused before anything is edited, if it
/// is: an unknown node (404); adding an external node (422); removing or moving an entry
/// point (409); marking a node without membership (404); a move without target (400), or
/// whose target was not found (404); an unknown action (400).
pub open spec fn membership_refusal(g: ProjectGraph, f: Feature, r: FeatureMembershipRequest, target_found: bool) -> Option<u16> {
    if !g.has_node(r.node_id@) {
        Some(404u16)
    } else {
        let node = g.nodes@[g.node_index(r.node_id@)];
        let entry = views(f.entry_point_node_ids@).contains(node.id@);
        if r.action@ == "add"@ {
            if !node.source_scope.spec_library_eligible() { Some(422u16) } else { None }
        } else if r.action@ == "remove"@ {
            if entry { Some(409u16) } else { None }
        } else if r.action@ == "optional"@ || r.action@ == "external"@ {
            if !has_membership(f.memberships@, node.id@) { Some(404u16) } else { None }
        } else if r.action@ == "move"@ {
            if r.target_feature_id is None {
                Some(400u16)
            } else if entry {
                Some(409u16)
            } else if !target_found {
                Some(404u16)
            } else {
                None
            }
        } else {
            Some(400u16)
        }
    }
}

/// Whether a membership change marks the node as an outside dependency.
pub open spec fn marks_external(r: FeatureMembershipRequest) -> bool {
    r.action@ == "external"@ && match r.external_dependency {
        Some(b) => b,
        None => true,
    }
}

/// The members a membership change leaves the feature with: the node joins on `add`, leaves
/// on `remove`, `move` and a marking as outside dependency, and the others keep them.
pub open spec fn edited_members(f: Feature, r: FeatureMembershipRequest) -> Set<Seq<char>> {
    let ids = views(f.node_ids@).to_set();
    if r.action@ == "add"@ {
        ids.insert(r.node_id@)
    } else if r.action@ == "remove"@ || r.action@ == "move"@ || marks_external(r) {
        ids.remove(r.node_id@)
    } else {
        ids
    }
}

/// A feature with these entry points and these members passes validation: it has an entry
/// point, each member is a first-party node of the graph, and each entry point is a member.
pub open spec fn members_valid(g: ProjectGraph, entries: Seq<String>, members: Set<Seq<char>>) -> bool {
    &&& entries.len() > 0
    &&& forall|x: Seq<char>| #[trigger] members.contains(x) ==> g.has_node(x)
        && g.nodes@[g.node_index(x)].source_scope.spec_library_eligible()
    &&& forall|k: int| 0 <= k < entries.len() ==> members.contains(#[trigger] entries[k]@)
}

/// The target of a move passes validation once the node is among its members.
pub open spec fn move_target_valid(g: ProjectGraph, t: Feature, node: Seq<char>) -> bool {
    &&& forall|k: int| 0 <= k < t.edge_ids@.len() ==> edge_known(g, #[trigger] t.edge_ids@[k]@)
    &&& members_valid(g, t.entry_point_node_ids@, views(t.node_ids@).to_set().insert(node))
}

/// A membership change that is not refused succeeds exactly when the edited feature, and the
/// target of a move, pass validation.
pub open spec fn membership_change_valid(g: ProjectGraph, f: Feature, r: FeatureMembershipRequest, target: Option<Feature>) -> bool {
    &&& members_valid(g, f.entry_point_node_ids@, edited_members(f, r))
    &&& r.action@ == "move"@ ==> (target matches Some(t) && move_target_valid(g, t, r.node_id@))
}

/// A feature whose edges are all in the graph passes validation exactly when its entry
/// points and member set do.
proof fn lemma_valid_by_members(g: ProjectGraph, f: Feature)
    requires
        forall|k: int| 0 <= k < f.edge_ids@.len() ==> edge_known(g, #[trigger] f.edge_ids@[k]@),
    ensures
        spec_feature_valid(g, f) <==> members_valid(g, f.entry_point_node_ids@, views(f.node_ids@).to_set()),
{
    let s = views(f.node_ids@);
    let entries = f.entry_point_node_ids@;
    if spec_feature_valid(g, f) {
        assert forall|x: Seq<char>| #[trigger] s.to_set().contains(x) implies g.has_node(x)
            && g.nodes@[g.node_index(x)].source_scope.spec_library_eligible() by {
            let k = choose|k: int| 0 <= k < s.len() && s[k] == x;
            assert(f.node_ids@[k]@ == x);
        }
        assert forall|k: int| 0 <= k < entries.len() implies s.to_set().contains(#[trigger] entries[k]@) by {
            assert(id_listed(f.node_ids@, entries[k]@));
            let j = choose|j: int| 0 <= j < f.node_ids@.len() && f.node_ids@[j]@ == entries[k]@;
            assert(s[j] == entries[k]@);
        }
    }
    if members_valid(g, entries, s.to_set()) {
        assert forall|k: int| 0 <= k < f.node_ids@.len() implies g.has_node(#[trigger] f.node_ids@[k]@)
            && g.nodes@[g.node_index(f.node_ids@[k]@)].source_scope.spec_library_eligible() by {
            assert(s[k] == f.node_ids@[k]@);
            assert(s.to_set().contains(s[k]));
        }
        assert forall|k: int| 0 <= k < entries.len() implies id_listed(f.node_ids@, #[trigger] entries[k]@) by {
            assert(s.to_set().contains(entries[k]@));
            let j = choose|j: int| 0 <= j < s.len() && s[j] == entries[k]@;
            assert(f.node_ids@[j]@ == entries[k]@);
        }
    }
}

fn remove_id(v: &mut Vec<String>, id: &str)
    ensures
        !views(final(v)@).contains(id@),
        forall|x: Seq<char>| x != id@ ==> (#[trigger] views(final(v)@).contains(x) <==> views(old(v)@).contains(x)),
{
    let mut out: Vec<String> = Vec::new();
    let mut k: usize = 0;
    while k < v.len()
        invariant
            k <= v@.len(),
            v@ == old(v)@,
            !views(out@).contains(id@),
            forall|x: Seq<char>| x != id@ ==> (#[trigger] views(out@).contains(x)
                <==> views(v@.subrange(0, k as int)).contains(x)),
        decreases v.len() - k,
    {
        let ghost before = views(out@);
        proof {
            assert(views(v@.subrange(0, k + 1)) =~= views(v@.subrange(0, k as int)).push(v@[k as int]@));
            crate::text::lemma_contains_push(views(v@.subrange(0, k as int)), v@[k as int]@);
        }
        if !str_equal(v[k].as_str(), id) {
            out.push(v[k].clone());
            proof {
                assert(views(out@) =~= before.push(v@[k as int]@));
                crate::text::lemma_contains_push(before, v@[k as int]@);
            }
        }
        k = k + 1;
    }
    assert(v@.subrange(0, v@.len() as int) =~= v@);
    *v = out;
}

fn remove_memberships(v: &mut Vec<FeatureMembership>, id: &str)
    ensures
        !has_membership(final(v)@, id@),
{
    let mut out: Vec<FeatureMembership> = Vec::new();
    let mut k: usize = 0;
    while k < v.len()
        invariant
            k <= v@.len(),
            !has_membership(out@, id@),
        decreases v.len() - k,
    {
        if !str_equal(v[k].node_id.as_str(), id) {
            let ghost before = out@;
            out.push(v[k].duplicate());
            assert(out@[out@.len() - 1].node_id@ == v@[k as int].node_id@);
            assert forall|i: int| 0 <= i < out@.len() implies #[trigger] out@[i].node_id@ != id@ by {
                if i < out@.len() - 1 {
                    assert(out@[i] == before[i]);
                    if before[i].node_id@ == id@ {
                        assert(has_membership(before, id@));
                    }
                }
            }
        }
        k = k + 1;
    }
    *v = out;
}

fn membership_index(v: &Vec<FeatureMembership>, id: &str) -> (res: Option<usize>)
    ensures
        match res {
            Some(i) => i < v@.len() && v@[i as int].node_id@ == id@,
            None => !has_membership(v@, id@),
        },
{
    let mut k: usize = 0;
    while k < v.len()
        invariant
            k <= v@.len(),
            forall|i: int| 0 <= i < k ==> v@[i].node_id@ != id@,
        decreases v.len() - k,
    {
        if str_equal(v[k].node_id.as_str(), id) {
            return Some(k);
        }
        k = k + 1;
    }
    None
}

fn user_membership(node_id: &String, reason: String, optional: bool) -> (res: FeatureMembership)
    ensures
        res.node_id == *node_id,
{
    FeatureMembership {
        node_id: node_id.clone(),
        confidence_permille: 1000,
        reason,
        source: MembershipSource::User,
        optional,
        external_dependency: false,
    }
}

fn is(s: &str, lit: &str) -> (res: bool)
    ensures
        res == (s@ == lit@),
{
    str_equal(s, lit)
}

/// Marks a feature edited at `now`, recomputes its facets and fingerprint, and validates it.
fn finish_edit(graph: &ProjectGraph, roles: &Vec<ArchitectureRole>, feature: &mut Feature, now: i64) -> (res: Result<(), EditError>)
    requires
        roles@.len() == graph.nodes@.len(),
    ensures
        res is Ok <==> spec_feature_valid(*graph, *final(feature)),
        res is Err ==> fails_with(res, 422),
        final(feature).status == FeatureStatus::Edited,
        final(feature).updated_at == now,
        facets_hold(*graph, *final(feature)),
        final(feature).id == old(feature).id,
        final(feature).node_ids == old(feature).node_ids,
        final(feature).edge_ids == old(feature).edge_ids,
        final(feature).entry_point_node_ids == old(feature).entry_point_node_ids,
        final(feature).ai_provider == old(feature).ai_provider,
        final(feature).ai_model == old(feature).ai_model,
{
    feature.status = FeatureStatus::Edited;
    feature.updated_at = now;
    refresh_feature_facets(graph, roles, feature);
    let ghost faceted = *feature;
    feature.source_hash = short_digest(join_ids(&feature.node_ids).as_str());
    proof {
        lemma_facets_same_fields(*graph, faceted, *feature);
    }
    match validate_feature(graph, feature) {
        Ok(()) => Ok(()),
        Err(message) => Err(EditError { status: 422, message }),
    }
}

/// Applies a user's change to a node's membership in a feature (`add`, `remove`,
/// `optional`, `external` or `move` to `target`, the feature `target_feature_id` names when
/// it was found in the project); `roles[i]` is the role of node `i`.
///
/// Returns the target feature to save (a move whose target validated) and the edited
/// feature, or why the change is refused. An edited feature is marked edited at `now`; its
/// edges are those between its members, its facets and fingerprint are recomputed, and it
/// is returned only when it passes validation.
pub fn apply_membership_change(
    graph: &ProjectGraph,
    roles: &Vec<ArchitectureRole>,
    feature: Feature,
    request: &FeatureMembershipRequest,
    target: Option<Feature>,
    now: i64,
) -> (res: (Option<Feature>, Result<Feature, EditError>))
    requires
        roles@.len() == graph.nodes@.len(),
    ensures
        membership_refusal(*graph, feature, *request, target is Some) matches Some(status)
            ==> fails_with(res.1, status) && res.0 is None,
        membership_refusal(*graph, feature, *request, target is Some) is None
            ==> (res.1 is Ok || fails_with(res.1, 422)),
        membership_refusal(*graph, feature, *request, target is Some) is None
            ==> (res.1 is Ok <==> membership_change_valid(*graph, feature, *request, target)),
        res.1 matches Ok(f) ==> spec_feature_valid(*graph, f) && f.status == FeatureStatus::Edited && f.updated_at == now
            && f.id == feature.id && facets_hold(*graph, f) && edges_between_members(*graph, f),
        res.1 matches Ok(f) ==> (request.action@ == "add"@ ==> views(f.node_ids@).contains(request.node_id@)),
        res.1 matches Ok(f) ==> ((request.action@ == "remove"@ || request.action@ == "move"@)
            ==> !views(f.node_ids@).contains(request.node_id@)),
        res.0 matches Some(t) ==> request.action@ == "move"@ && spec_feature_valid(*graph, t)
            && t.status == FeatureStatus::Edited && t.updated_at == now
            && views(t.node_ids@).contains(request.node_id@) && t.id == target->0.id,
{
    proof {
        reveal_strlit("add");
        reveal_strlit("remove");
        reveal_strlit("optional");
        reveal_strlit("external");
        reveal_strlit("move");
        assert("add"@[0] != "remove"@[0] && "optional"@[0] != "remove"@[0] && "external"@[0] != "remove"@[0]);
        assert("add"@[0] != "move"@[0] && "optional"@[0] != "move"@[0] && "external"@[0] != "move"@[0]);
    }
    let ghost f0 = feature;
    let ghost target0 = target;
    let mut feature = feature;
    let node_index = match graph.find_node_index(request.node_id.as_str()) {
        Some(i) => i,
        None => {
            return (None, Err(refuse(404, "Nœud introuvable")));
        },
    };
    let node = &graph.nodes[node_index];
    assert(node.id@ == request.node_id@);
    let action = request.action.as_str();
    let mut moved: Option<Feature> = None;
    if is(action, "add") {
        if !node.source_scope.library_eligible() {
            return (None, Err(refuse(422, "Une dépendance externe ne peut pas devenir membre du cœur de la Feature")));
        }
        if !holds(&feature.node_ids, node.id.as_str()) {
            feature.node_ids.push(node.id.clone());
            assert(views(feature.node_ids@)[feature.node_ids@.len() - 1] == node.id@);
            proof {
                assert(views(feature.node_ids@) =~= views(f0.node_ids@).push(node.id@));
                crate::text::lemma_contains_push(views(f0.node_ids@), node.id@);
            }
            let optional = match request.optional {
                Some(b) => b,
                None => false,
            };
            feature.memberships.push(user_membership(&node.id, String::from_str("ajout manuel par l’utilisateur"), optional));
        }
        assert(views(feature.node_ids@).to_set() =~= edited_members(f0, *request));
    } else if is(action, "remove") {
        if holds(&feature.entry_point_node_ids, node.id.as_str()) {
            return (None, Err(refuse(409, "Un point d’entrée ne peut pas être retiré sans redécouper la Feature")));
        }
        remove_id(&mut feature.node_ids, node.id.as_str());
        remove_memberships(&mut feature.memberships, node.id.as_str());
        assert(views(feature.node_ids@).to_set() =~= edited_members(f0, *request));
    } else if is(action, "optional") || is(action, "external") {
        let i = match membership_index(&feature.memberships, node.id.as_str()) {
            Some(i) => i,
            None => {
                return (None, Err(refuse(404, "Appartenance introuvable")));
            },
        };
        let current = feature.memberships[i].duplicate();
        if is(action, "optional") {
            let optional = match request.optional {
                Some(b) => b,
                None => true,
            };
            feature.memberships.set(i, FeatureMembership {
                optional,
                source: MembershipSource::User,
                reason: String::from_str("caractère optionnel défini par l’utilisateur"),
                ..current
            });
        } else {
            let external = match request.external_dependency {
                Some(b) => b,
                None => true,
            };
            feature.memberships.set(i, FeatureMembership {
                external_dependency: external,
                source: MembershipSource::User,
                reason: String::from_str("dépendance externe marquée par l’utilisateur"),
                ..current
            });
            if external {
                remove_id(&mut feature.node_ids, node.id.as_str());
                if !holds(&feature.external_services, node.name.as_str()) {
                    feature.external_services.push(node.name.clone());
                }
            }
        }
        assert(views(feature.node_ids@).to_set() =~= edited_members(f0, *request));
    } else if is(action, "move") {
        if request.target_feature_id.is_none() {
            return (None, Err(refuse(400, "target_feature_id est obligatoire")));
        }
        if holds(&feature.entry_point_node_ids, node.id.as_str()) {
            return (None, Err(refuse(409, "Déplace la Feature entière ou redécoupe-la pour déplacer son point d’entrée")));
        }
        let mut t = match target {
            Some(t) => t,
            None => {
                return (None, Err(refuse(404, "Feature cible introuvable")));
            },
        };
        remove_id(&mut feature.node_ids, node.id.as_str());
        remove_memberships(&mut feature.memberships, node.id.as_str());
        if !holds(&t.node_ids, node.id.as_str()) {
            t.node_ids.push(node.id.clone());
            let optional = match request.optional {
                Some(b) => b,
                None => false,
            };
            let reason = text_of2("déplacé manuellement depuis ", feature.name.as_str());
            t.memberships.push(user_membership(&node.id, reason, optional));
        }
        let ghost before_finish = t.node_ids;
        assert(views(t.node_ids@).contains(node.id@)) by {
            if !views(before_finish@).contains(node.id@) {
                assert(views(t.node_ids@)[t.node_ids@.len() - 1] == node.id@);
            }
        }
        proof {
            let t0 = target0->0;
            if views(t0.node_ids@).contains(node.id@) {
                assert(views(t.node_ids@).to_set() =~= views(t0.node_ids@).to_set().insert(node.id@));
            } else {
                assert(views(t.node_ids@) =~= views(t0.node_ids@).push(node.id@));
                crate::text::lemma_contains_push(views(t0.node_ids@), node.id@);
                assert(views(t.node_ids@).to_set() =~= views(t0.node_ids@).to_set().insert(node.id@));
            }
        }
        let ghost t_before = t;
        match finish_edit(graph, roles, &mut t, now) {
            Ok(()) => {},
            Err(e) => {
                proof {
                    if forall|k: int| 0 <= k < t.edge_ids@.len() ==> edge_known(*graph, #[trigger] t.edge_ids@[k]@) {
                        lemma_valid_by_members(*graph, t);
                    }
                }
                return (None, Err(e));
            },
        }
        proof {
            lemma_valid_by_members(*graph, t);
        }
        moved = Some(t);
        assert(views(feature.node_ids@).to_set() =~= edited_members(f0, *request));
    } else {
        return (None, Err(refuse(400, "Action membre inconnue")));
    }
    recompute_edges(graph, &mut feature);
    let ghost edged = feature;
    let ghost members = views(feature.node_ids@).to_set();
    let result = finish_edit(graph, roles, &mut feature, now);
    proof {
        assert forall|k: int| 0 <= k < feature.edge_ids@.len() implies edge_known(*graph, #[trigger] feature.edge_ids@[k]@) by {
            assert(joins_members(*graph, edged.node_ids@, edged.edge_ids@[k]@));
        }
        lemma_valid_by_members(*graph, feature);
    }
    match result {
        Ok(()) => {
            assert(edges_between_members(*graph, feature));
            (moved, Ok(feature))
        },
        Err(e) => (moved, Err(e)),
    }
}

fn text_of2(a: &str, b: &str) -> (res: String) {
    let mut out = chars_of(a);
    append_chars(&mut out, &chars_of(b));
    string_of(&out)
}

// ---------------------------------------------------------------------------
// Merging features
// ---------------------------------------------------------------------------

/// The first problem met while fetching the features to merge, in request order: one that
/// was not found (404) or that belongs to another project (400).
pub open spec fn fetch_problem(fetched: Seq<Option<Feature>>, project_id: Seq<char>) -> Option<u16>
    decreases fetched.len(),
{
    if fetched.len() == 0 {
        None
    } else {
        match fetch_problem(fetched.drop_last(), project_id) {
            Some(s) => Some(s),
            None => match fetched.last() {
                None => Some(404u16),
                Some(f) => if f.project_id@ != project_id { Some(400u16) } else { None },
            },
        }
    }
}

proof fn lemma_fetch_problem_sticks(s: Seq<Option<Feature>>, project_id: Seq<char>, k: int)
    requires
        0 <= k <= s.len(),
        fetch_problem(s.subrange(0, k), project_id) is Some,
    ensures
        fetch_problem(s, project_id) == fetch_problem(s.subrange(0, k), project_id),
    decreases s.len() - k,
{
    if k < s.len() {
        assert(s.subrange(0, k + 1).drop_last() =~= s.subrange(0, k));
        lemma_fetch_problem_sticks(s, project_id, k + 1);
    } else {
        assert(s.subrange(0, k) =~= s);
    }
}

/// The identifier of a merge: `feature:merge:` and the first 12 bytes, in hexadecimal, of
/// the digest of the merged ids joined by NUL characters.
pub open spec fn merge_id(ids: Seq<String>) -> Seq<char> {
    "feature:merge:"@ + spec_hex(spec_sha256(vstd::utf8::encode_utf8(nul_joined_ids(ids))).subrange(0, 12))
}

fn merge_id_of(ids: &Vec<String>) -> (res: String)
    ensures
        res@ == merge_id(ids@),
{
    let key = join_ids(ids);
    let digest = sha256_digest(key.as_str().as_bytes());
    let mut head: Vec<u8> = Vec::new();
    let mut i: usize = 0;
    while i < 12
        invariant
            i <= 12,
            digest@.len() == 32,
            head@ == digest@.subrange(0, i as int),
        decreases 12 - i,
    {
        head.push(digest[i]);
        assert(head@ =~= digest@.subrange(0, i + 1));
        i = i + 1;
    }
    let mut out = chars_of("feature:merge:");
    append_chars(&mut out, &to_hex(head.as_slice()));
    string_of(&out)
}

/// `a` is `b` taken over by the user, with the reason given.
pub open spec fn user_copy(a: FeatureMembership, b: FeatureMembership, reason: Seq<char>) -> bool {
    &&& a.node_id == b.node_id
    &&& a.confidence_permille == b.confidence_permille
    &&& a.optional == b.optional
    &&& a.external_dependency == b.external_dependency
    &&& a.source == MembershipSource::User
    &&& a.reason@ == reason
}

/// The positions among the first `k` of `extra` whose node had no membership yet, in
/// `base` or among those taken before.
pub open spec fn user_merge_picks(base: Seq<Seq<char>>, extra: Seq<FeatureMembership>, k: int) -> Seq<int>
    decreases k,
{
    if k <= 0 {
        Seq::empty()
    } else {
        let r = user_merge_picks(base, extra, k - 1);
        if (base + r.map_values(|i: int| extra[i].node_id@)).contains(extra[k - 1].node_id@) {
            r
        } else {
            r.push(k - 1)
        }
    }
}

/// Adds, as the user's, the memberships of `extra` whose node has none yet.
fn merge_memberships_as_user(target: &mut Vec<FeatureMembership>, extra: &Vec<FeatureMembership>)
    ensures
        ({
            let picks = user_merge_picks(
                old(target)@.map_values(|m: FeatureMembership| m.node_id@),
                extra@,
                extra@.len() as int,
            );
            &&& final(target)@.len() == old(target)@.len() + picks.len()
            &&& final(target)@.subrange(0, old(target)@.len() as int) == old(target)@
            &&& forall|j: int| 0 <= j < picks.len() ==> 0 <= #[trigger] picks[j] < extra@.len() && user_copy(
                final(target)@[old(target)@.len() + j],
                extra@[picks[j]],
                "user merge"@,
            )
        }),
{
    let ghost base = old(target)@.map_values(|m: FeatureMembership| m.node_id@);
    let ghost n0 = old(target)@.len();
    let mut k: usize = 0;
    while k < extra.len()
        invariant
            k <= extra@.len(),
            base == old(target)@.map_values(|m: FeatureMembership| m.node_id@),
            n0 == old(target)@.len(),
            target@.len() == n0 + user_merge_picks(base, extra@, k as int).len(),
            target@.subrange(0, n0 as int) == old(target)@,
            target@.map_values(|m: FeatureMembership| m.node_id@) == base + user_merge_picks(base, extra@, k as int).map_values(
                |i: int| extra@[i].node_id@,
            ),
            forall|j: int| 0 <= j < user_merge_picks(base, extra@, k as int).len() ==> 0 <= #[trigger] user_merge_picks(
                base,
                extra@,
                k as int,
            )[j] < k && user_copy(target@[n0 + j], extra@[user_merge_picks(base, extra@, k as int)[j]], "user merge"@),
        decreases extra.len() - k,
    {
        let ghost r = user_merge_picks(base, extra@, k as int);
        let ghost ids = target@.map_values(|m: FeatureMembership| m.node_id@);
        let ghost before = target@;
        let found = membership_index(target, extra[k].node_id.as_str());
        proof {
            if ids.contains(extra@[k as int].node_id@) {
                let i = choose|i: int| 0 <= i < ids.len() && ids[i] == extra@[k as int].node_id@;
                assert(target@[i].node_id@ == extra@[k as int].node_id@);
            }
            if found is Some {
                assert(ids[found->0 as int] == extra@[k as int].node_id@);
            }
        }
        if found.is_none() {
            let current = extra[k].duplicate();
            target.push(FeatureMembership {
                source: MembershipSource::User,
                reason: String::from_str("user merge"),
                ..current
            });
            proof {
                let r2 = r.push(k as int);
                assert(user_merge_picks(base, extra@, k + 1) == r2);
                assert(target@.subrange(0, n0 as int) =~= before.subrange(0, n0 as int));
                assert(target@.map_values(|m: FeatureMembership| m.node_id@) =~= base + r2.map_values(|i: int| extra@[i].node_id@));
                assert forall|j: int| 0 <= j < r2.len() implies 0 <= #[trigger] r2[j] < k + 1 && user_copy(
                    target@[n0 + j],
                    extra@[r2[j]],
                    "user merge"@,
                ) by {
                    if j < r.len() {
                        assert(target@[n0 + j] == before[n0 + j]);
                    }
                }
            }
        } else {
            assert(user_merge_picks(base, extra@, k + 1) == r);
        }
        k = k + 1;
    }
}

/// The merged node ids cover those of every merged feature.
pub open spec fn covers_members(m: Feature, fs: Seq<Option<Feature>>) -> bool {
    forall|k: int, x: Seq<char>| 0 <= k < fs.len() && fs[k] is Some && #[trigger] views(fs[k]->0.node_ids@).contains(x)
        ==> views(m.node_ids@).contains(x)
}

/// Some feature among the first `n` lists the id among its members.
pub open spec fn member_of_first(fs: Seq<Feature>, n: int, x: Seq<char>) -> bool {
    exists|k: int| 0 <= k < n && #[trigger] views(fs[k].node_ids@).contains(x)
}

/// Some feature among the first `n` lists the id among its entry points.
pub open spec fn entry_of_first(fs: Seq<Feature>, n: int, x: Seq<char>) -> bool {
    exists|k: int| 0 <= k < n && #[trigger] views(fs[k].entry_point_node_ids@).contains(x)
}

/// Some feature among the first `n` lists the id among its edges.
pub open spec fn edge_of_first(fs: Seq<Feature>, n: int, x: Seq<char>) -> bool {
    exists|k: int| 0 <= k < n && #[trigger] views(fs[k].edge_ids@).contains(x)
}

/// The id names a first-party node of the graph.
pub open spec fn g_ok(g: ProjectGraph, x: Seq<char>) -> bool {
    g.has_node(x) && g.nodes@[g.node_index(x)].source_scope.spec_library_eligible()
}

/// The union of the features passes validation: some entry point, first-party members of
/// the graph only, each entry point a member, and edges of the graph only.
pub open spec fn union_valid(g: ProjectGraph, fs: Seq<Feature>) -> bool {
    let n = fs.len() as int;
    &&& exists|x: Seq<char>| entry_of_first(fs, n, x)
    &&& forall|x: Seq<char>| member_of_first(fs, n, x) ==> g_ok(g, x)
    &&& forall|x: Seq<char>| entry_of_first(fs, n, x) ==> member_of_first(fs, n, x)
    &&& forall|x: Seq<char>| edge_of_first(fs, n, x) ==> edge_known(g, x)
}

/// The features that were fetched, all of them found.
pub open spec fn found_features(fetched: Seq<Option<Feature>>) -> Seq<Feature> {
    fetched.map_values(|o: Option<Feature>| o->0)
}

/// A feature passes validation exactly when its entry points, members and edges, taken as
/// sets, do.
proof fn lemma_valid_by_sets(g: ProjectGraph, f: Feature)
    ensures
        spec_feature_valid(g, f) <==> {
            &&& exists|x: Seq<char>| views(f.entry_point_node_ids@).contains(x)
            &&& forall|x: Seq<char>| #[trigger] views(f.node_ids@).contains(x) ==> g.has_node(x)
                && g.nodes@[g.node_index(x)].source_scope.spec_library_eligible()
            &&& forall|x: Seq<char>| #[trigger] views(f.entry_point_node_ids@).contains(x) ==> views(f.node_ids@).contains(x)
            &&& forall|x: Seq<char>| #[trigger] views(f.edge_ids@).contains(x) ==> edge_known(g, x)
        },
{
    let e = views(f.entry_point_node_ids@);
    let m = views(f.node_ids@);
    let d = views(f.edge_ids@);
    if spec_feature_valid(g, f) {
        assert(e.contains(e[0]));
        assert forall|x: Seq<char>| #[trigger] m.contains(x) implies g.has_node(x)
            && g.nodes@[g.node_index(x)].source_scope.spec_library_eligible() by {
            let k = choose|k: int| 0 <= k < m.len() && m[k] == x;
            assert(f.node_ids@[k]@ == x);
        }
        assert forall|x: Seq<char>| #[trigger] e.contains(x) implies m.contains(x) by {
            let k = choose|k: int| 0 <= k < e.len() && e[k] == x;
            assert(id_listed(f.node_ids@, f.entry_point_node_ids@[k]@));
            let j = choose|j: int| 0 <= j < f.node_ids@.len() && f.node_ids@[j]@ == f.entry_point_node_ids@[k]@;
            assert(m[j] == x);
        }
        assert forall|x: Seq<char>| #[trigger] d.contains(x) implies edge_known(g, x) by {
            let k = choose|k: int| 0 <= k < d.len() && d[k] == x;
            assert(f.edge_ids@[k]@ == x);
        }
    }
    if (exists|x: Seq<char>| e.contains(x)) && (forall|x: Seq<char>| #[trigger] m.contains(x) ==> g.has_node(x)
        && g.nodes@[g.node_index(x)].source_scope.spec_library_eligible()) && (forall|x: Seq<char>| #[trigger] e.contains(x)
        ==> m.contains(x)) && (forall|x: Seq<char>| #[trigger] d.contains(x) ==> edge_known(g, x)) {
        let x0 = choose|x: Seq<char>| e.contains(x);
        assert(f.entry_point_node_ids@.len() > 0);
        assert forall|k: int| 0 <= k < f.node_ids@.len() implies g.has_node(#[trigger] f.node_ids@[k]@)
            && g.nodes@[g.node_index(f.node_ids@[k]@)].source_scope.spec_library_eligible() by {
            assert(m[k] == f.node_ids@[k]@);
            assert(m.contains(m[k]));
        }
        assert forall|k: int| 0 <= k < f.edge_ids@.len() implies edge_known(g, #[trigger] f.edge_ids@[k]@) by {
            assert(d[k] == f.edge_ids@[k]@);
            assert(d.contains(d[k]));
        }
        assert forall|k: int| 0 <= k < f.entry_point_node_ids@.len() implies id_listed(f.node_ids@, #[trigger] f.entry_point_node_ids@[k]@) by {
            assert(e[k] == f.entry_point_node_ids@[k]@);
            assert(e.contains(e[k]));
            let j = choose|j: int| 0 <= j < m.len() && m[j] == e[k];
            assert(f.node_ids@[j]@ == e[k]);
        }
    }
}

/// Merges the features the user selected into one edited feature.
///
/// `fetched[k]` is the feature `feature_ids[k]` names, if it was found. Fewer than two ids
/// are refused (400); so is the first selected feature that was not found (404) or that
/// belongs to another project (400). The merge holds the union of every list of the merged
/// features, memberships added by the user, the average confidence, the given name or the
/// names joined by ` + `, and is returned only when it passes validation (otherwise 422).
pub fn merge_selected_features(
    graph: &ProjectGraph,
    roles: &Vec<ArchitectureRole>,
    project_id: &str,
    feature_ids: &Vec<String>,
    name: Option<String>,
    fetched: Vec<Option<Feature>>,
    now: i64,
) -> (res: Result<Feature, EditError>)
    requires
        roles@.len() == graph.nodes@.len(),
        fetched@.len() == feature_ids@.len(),
    ensures
        feature_ids@.len() < 2 ==> fails_with(res, 400),
        feature_ids@.len() >= 2 ==> (fetch_problem(fetched@, project_id@) matches Some(status) ==> fails_with(res, status)),
        feature_ids@.len() >= 2 && fetch_problem(fetched@, project_id@) is None ==> (res is Ok || fails_with(res, 422)),
        feature_ids@.len() >= 2 && fetch_problem(fetched@, project_id@) is None ==> (res is Ok <==> union_valid(
            *graph,
            found_features(fetched@),
        )),
        res matches Ok(m) ==> spec_feature_valid(*graph, m) && m.status == FeatureStatus::Edited && m.updated_at == now
            && m.id@ == merge_id(feature_ids@) && covers_members(m, fetched@) && m.ai_provider is None && m.ai_model is None,
{
    if feature_ids.len() < 2 {
        return Err(refuse(400, "select at least two features"));
    }
    let n = feature_ids.len();
    let mut selected: Vec<Feature> = Vec::new();
    let ghost all = fetched@;
    let mut input = fetched;
    assert(input@ == all);
    let mut k: usize = 0;
    while input.len() > 0
        invariant
            k + input@.len() == all.len(),
            all == fetched@,
            all.len() == feature_ids@.len(),
            n == feature_ids@.len(),
            feature_ids@.len() >= 2,
            input@ == all.subrange(k as int, all.len() as int),
            fetch_problem(all.subrange(0, k as int), project_id@) is None,
            selected@.len() == k,
            forall|q: int| 0 <= q < k ==> all[q] == Some(#[trigger] selected@[q]),
        decreases input@.len(),
    {
        let item = input.remove(0);
        proof {
            assert(all.subrange(0, k + 1).drop_last() =~= all.subrange(0, k as int));
            assert(item == all[k as int]);
            assert(input@ =~= all.subrange(k + 1, all.len() as int));
        }
        match item {
            None => {
                proof {
                    let pre = all.subrange(0, k + 1);
                    assert(pre.drop_last() =~= all.subrange(0, k as int));
                    assert(pre.last() is None);
                    assert(fetch_problem(pre, project_id@) == Some(404u16));
                    lemma_fetch_problem_sticks(all, project_id@, k + 1);
                }
                let mut message = chars_of("feature not found: ");
                append_chars(&mut message, &chars_of(feature_ids[k].as_str()));
                return Err(EditError { status: 404, message: string_of(&message) });
            },
            Some(f) => {
                if !str_equal(f.project_id.as_str(), project_id) {
                    proof {
                        let pre = all.subrange(0, k + 1);
                        assert(pre.drop_last() =~= all.subrange(0, k as int));
                        assert(fetch_problem(pre, project_id@) == Some(400u16));
                        lemma_fetch_problem_sticks(all, project_id@, k + 1);
                    }
                    return Err(refuse(400, "features must belong to the same project"));
                }
                selected.push(f);
            },
        }
        k = k + 1;
    }
    assert(all.subrange(0, all.len() as int) =~= all);
    let ghost fs = selected@;
    assert(found_features(all) =~= fs) by {
        assert forall|q: int| 0 <= q < all.len() implies found_features(all)[q] == fs[q] by {
            assert(all[q] == Some(selected@[q]));
        }
    }
    let mut merged = selected[0].duplicate();
    proof {
        assert forall|x: Seq<char>| #[trigger] views(merged.node_ids@).contains(x) <==> member_of_first(fs, 1, x) by {
            if views(merged.node_ids@).contains(x) {
                assert(views(fs[0].node_ids@) =~= views(merged.node_ids@));
            }
            if member_of_first(fs, 1, x) {
                assert(views(fs[0].node_ids@) =~= views(merged.node_ids@));
            }
        }
        assert forall|x: Seq<char>| #[trigger] views(merged.entry_point_node_ids@).contains(x) <==> entry_of_first(fs, 1, x) by {
            assert(views(fs[0].entry_point_node_ids@) =~= views(merged.entry_point_node_ids@));
        }
        assert forall|x: Seq<char>| #[trigger] views(merged.edge_ids@).contains(x) <==> edge_of_first(fs, 1, x) by {
            assert(views(fs[0].edge_ids@) =~= views(merged.edge_ids@));
        }
    }
    let mut confidence_sum: u128 = merged.confidence_permille as u128;
    let mut i: usize = 1;
    while i < selected.len()
        invariant
            1 <= i <= selected@.len(),
            selected@.len() == all.len(),
            feature_ids@.len() == all.len(),
            all.len() >= 2,
            forall|q: int| 0 <= q < all.len() ==> all[q] == Some(#[trigger] selected@[q]),
            confidence_sum <= i * 0xFFFF_FFFFu128,
            forall|q: int, x: Seq<char>| 0 <= q < i && #[trigger] views(selected@[q].node_ids@).contains(x)
                ==> views(merged.node_ids@).contains(x),
            fs == selected@,
            forall|x: Seq<char>| #[trigger] views(merged.node_ids@).contains(x) <==> member_of_first(fs, i as int, x),
            forall|x: Seq<char>| #[trigger] views(merged.entry_point_node_ids@).contains(x) <==> entry_of_first(fs, i as int, x),
            forall|x: Seq<char>| #[trigger] views(merged.edge_ids@).contains(x) <==> edge_of_first(fs, i as int, x),
        decreases selected.len() - i,
    {
        let f = &selected[i];
        let ghost before = merged.node_ids@;
        let ghost entries_before = merged.entry_point_node_ids@;
        let ghost edges_before = merged.edge_ids@;
        extend_unique(&mut merged.entry_point_node_ids, &f.entry_point_node_ids);
        extend_unique(&mut merged.node_ids, &f.node_ids);
        proof {
            assert forall|x: Seq<char>| #[trigger] views(merged.node_ids@).contains(x) <==> member_of_first(fs, i + 1, x) by {
                if member_of_first(fs, i + 1, x) {
                    let k = choose|k: int| 0 <= k < i + 1 && #[trigger] views(fs[k].node_ids@).contains(x);
                    if k < i {
                        assert(member_of_first(fs, i as int, x));
                    }
                }
                if views(before).contains(x) {
                    let k = choose|k: int| 0 <= k < i && #[trigger] views(fs[k].node_ids@).contains(x);
                    assert(member_of_first(fs, i + 1, x));
                }
            }
            assert forall|x: Seq<char>| #[trigger] views(merged.entry_point_node_ids@).contains(x) <==> entry_of_first(fs, i + 1, x) by {
                if entry_of_first(fs, i + 1, x) {
                    let k = choose|k: int| 0 <= k < i + 1 && #[trigger] views(fs[k].entry_point_node_ids@).contains(x);
                    if k < i {
                        assert(entry_of_first(fs, i as int, x));
                    }
                }
                if views(entries_before).contains(x) {
                    let k = choose|k: int| 0 <= k < i && #[trigger] views(fs[k].entry_point_node_ids@).contains(x);
                    assert(entry_of_first(fs, i + 1, x));
                }
            }
        }
        assert forall|q: int, x: Seq<char>| 0 <= q < i + 1 && #[trigger] views(selected@[q].node_ids@).contains(x)
            implies views(merged.node_ids@).contains(x) by {
            if q < i {
                assert(views(before).contains(x));
            }
        }
        extend_unique(&mut merged.edge_ids, &f.edge_ids);
        proof {
            assert forall|x: Seq<char>| #[trigger] views(merged.edge_ids@).contains(x) <==> edge_of_first(fs, i + 1, x) by {
                if edge_of_first(fs, i + 1, x) {
                    let k = choose|k: int| 0 <= k < i + 1 && #[trigger] views(fs[k].edge_ids@).contains(x);
                    if k < i {
                        assert(edge_of_first(fs, i as int, x));
                    }
                }
                if views(edges_before).contains(x) {
                    let k = choose|k: int| 0 <= k < i && #[trigger] views(fs[k].edge_ids@).contains(x);
                    assert(edge_of_first(fs, i + 1, x));
                }
            }
        }
        extend_unique(&mut merged.routes, &f.routes);
        extend_unique(&mut merged.pages, &f.pages);
        extend_unique(&mut merged.services, &f.services);
        extend_unique(&mut merged.repositories, &f.repositories);
        extend_unique(&mut merged.models, &f.models);
        extend_unique(&mut merged.entities, &f.entities);
        extend_unique(&mut merged.templates, &f.templates);
        extend_unique(&mut merged.tests, &f.tests);
        extend_unique(&mut merged.external_services, &f.external_services);
        extend_unique(&mut merged.business_rules, &f.business_rules);
        extend_unique(&mut merged.inputs, &f.inputs);
        extend_unique(&mut merged.outputs, &f.outputs);
        extend_unique(&mut merged.side_effects, &f.side_effects);
        extend_unique(&mut merged.security_constraints, &f.security_constraints);
        merge_memberships_as_user(&mut merged.memberships, &f.memberships);
        confidence_sum = confidence_sum + f.confidence_permille as u128;
        i = i + 1;
    }
    merged.id = merge_id_of(feature_ids);
    merged.name = match name {
        Some(n) => n,
        None => {
            let mut joined: Vec<char> = Vec::new();
            let mut q: usize = 0;
            while q < selected.len()
                decreases selected.len() - q,
            {
                if q > 0 {
                    append_chars(&mut joined, &chars_of(" + "));
                }
                append_chars(&mut joined, &chars_of(selected[q].name.as_str()));
                q = q + 1;
            }
            string_of(&joined)
        },
    };
    merged.description = String::from_str("User-merged Feature backed by the union of validated graph memberships.");
    let average: u128 = confidence_sum / (selected.len() as u128);
    merged.confidence_permille = if average > 0xFFFF_FFFFu128 { 0xFFFF_FFFFu32 } else { average as u32 };
    merged.ai_provider = None;
    merged.ai_model = None;
    let ghost members = merged.node_ids;
    let ghost merged_id = merged.id;
    let ghost pre_finish = merged;
    let result = finish_edit(graph, roles, &mut merged, now);
    proof {
        lemma_valid_by_sets(*graph, merged);
        let n = fs.len() as int;
        assert(views(merged.node_ids@) == views(pre_finish.node_ids@));
        assert(views(merged.entry_point_node_ids@) == views(pre_finish.entry_point_node_ids@));
        assert(views(merged.edge_ids@) == views(pre_finish.edge_ids@));
        if union_valid(*graph, fs) {
            let x0 = choose|x: Seq<char>| entry_of_first(fs, n, x);
            assert(views(merged.entry_point_node_ids@).contains(x0));
            assert forall|x: Seq<char>| #[trigger] views(merged.node_ids@).contains(x) implies g_ok(*graph, x) by {
                assert(member_of_first(fs, n, x));
            }
            assert forall|x: Seq<char>| #[trigger] views(merged.entry_point_node_ids@).contains(x) implies views(
                merged.node_ids@,
            ).contains(x) by {
                assert(entry_of_first(fs, n, x));
            }
            assert forall|x: Seq<char>| #[trigger] views(merged.edge_ids@).contains(x) implies edge_known(*graph, x) by {
                assert(edge_of_first(fs, n, x));
            }
            assert(spec_feature_valid(*graph, merged));
        }
        if spec_feature_valid(*graph, merged) {
            let x0 = choose|x: Seq<char>| views(merged.entry_point_node_ids@).contains(x);
            assert(entry_of_first(fs, n, x0));
            assert forall|x: Seq<char>| member_of_first(fs, n, x) implies g_ok(*graph, x) by {
                assert(views(merged.node_ids@).contains(x));
            }
            assert forall|x: Seq<char>| entry_of_first(fs, n, x) implies member_of_first(fs, n, x) by {
                assert(views(merged.entry_point_node_ids@).contains(x));
                assert(views(merged.node_ids@).contains(x));
            }
            assert forall|x: Seq<char>| edge_of_first(fs, n, x) implies edge_known(*graph, x) by {
                assert(views(merged.edge_ids@).contains(x));
            }
            assert(union_valid(*graph, fs));
        }
    }
    match result {
        Ok(()) => {
            proof {
                assert forall|k: int, x: Seq<char>| 0 <= k < all.len() && all[k] is Some
                    && #[trigger] views(all[k]->0.node_ids@).contains(x) implies views(merged.node_ids@).contains(x) by {
                    assert(all[k] == Some(selected@[k]));
                }
            }
            Ok(merged)
        },
        Err(e) => Err(e),
    }
}

// ---------------------------------------------------------------------------
// Splitting a feature
// ---------------------------------------------------------------------------

/// The node ids of all parts, in order.
pub open spec fn part_ids(parts: Seq<SplitFeaturePart>) -> Seq<Seq<char>>
    decreases parts.len(),
{
    if parts.len() == 0 { Seq::empty() } else { part_ids(parts.drop_last()) + views(parts.last().node_ids@) }
}

/// The parts' memberships are acceptable: no part is empty, and every node belongs to the
/// split feature and to one part only, once.
pub open spec fn split_memberships_ok(original: Feature, parts: Seq<SplitFeaturePart>) -> bool {
    let ids = part_ids(parts);
    &&& forall|p: int| 0 <= p < parts.len() ==> (#[trigger] parts[p]).node_ids@.len() > 0
    &&& forall|a: int, b: int| 0 <= a < b < ids.len() ==> #[trigger] ids[a] != #[trigger] ids[b]
    &&& forall|a: int| 0 <= a < ids.len() ==> views(original.node_ids@).contains(#[trigger] ids[a])
}

/// The ids hold an entry point of the feature.
pub open spec fn holds_entry(original: Feature, ids: Seq<String>) -> bool {
    exists|k: int| 0 <= k < original.entry_point_node_ids@.len() && #[trigger] views(ids).contains(original.entry_point_node_ids@[k]@)
}

/// Every part holds an entry point of the split feature.
pub open spec fn parts_have_entries(original: Feature, parts: Seq<SplitFeaturePart>) -> bool {
    forall|p: int| 0 <= p < parts.len() ==> holds_entry(original, #[trigger] parts[p].node_ids@)
}

fn entries_in(original: &Feature, ids: &Vec<String>) -> (res: Vec<String>)
    ensures
        forall|x: Seq<char>| #[trigger] views(res@).contains(x)
            <==> (views(original.entry_point_node_ids@).contains(x) && views(ids@).contains(x)),
        res@.len() == 0 <==> forall|k: int| 0 <= k < original.entry_point_node_ids@.len()
            ==> !views(ids@).contains(#[trigger] original.entry_point_node_ids@[k]@),
{
    let mut out: Vec<String> = Vec::new();
    let mut k: usize = 0;
    while k < original.entry_point_node_ids.len()
        invariant
            k <= original.entry_point_node_ids@.len(),
            forall|x: Seq<char>| #[trigger] views(out@).contains(x)
                <==> (views(original.entry_point_node_ids@.subrange(0, k as int)).contains(x) && views(ids@).contains(x)),
            out@.len() == 0 <==> forall|q: int| 0 <= q < k ==> !views(ids@).contains(#[trigger] original.entry_point_node_ids@[q]@),
        decreases original.entry_point_node_ids.len() - k,
    {
        let ghost before = views(out@);
        let e = &original.entry_point_node_ids[k];
        let ghost pre = views(original.entry_point_node_ids@.subrange(0, k as int));
        proof {
            assert(views(original.entry_point_node_ids@.subrange(0, k + 1)) =~= pre.push(e@));
            crate::text::lemma_contains_push(pre, e@);
        }
        if holds(ids, e.as_str()) {
            out.push(e.clone());
            proof {
                assert(views(out@) =~= before.push(e@));
                crate::text::lemma_contains_push(before, e@);
            }
        }
        k = k + 1;
    }
    assert(original.entry_point_node_ids@.subrange(0, original.entry_point_node_ids@.len() as int) =~= original.entry_point_node_ids@);
    out
}

/// The memberships among the first `n` whose node is listed, in order.
pub open spec fn listed_memberships(ms: Seq<FeatureMembership>, ids: Seq<Seq<char>>, n: int) -> Seq<FeatureMembership>
    decreases n,
{
    if n <= 0 {
        Seq::empty()
    } else if ids.contains(ms[n - 1].node_id@) {
        listed_memberships(ms, ids, n - 1).push(ms[n - 1])
    } else {
        listed_memberships(ms, ids, n - 1)
    }
}

/// The memberships whose node is listed, taken over by the user for a split.
fn user_split_memberships(ms: &Vec<FeatureMembership>, ids: &Vec<String>) -> (res: Vec<FeatureMembership>)
    ensures
        res@.len() == listed_memberships(ms@, views(ids@), ms@.len() as int).len(),
        forall|k: int| 0 <= k < res@.len() ==> user_copy(
            #[trigger] res@[k],
            listed_memberships(ms@, views(ids@), ms@.len() as int)[k],
            "user split"@,
        ),
{
    let mut out: Vec<FeatureMembership> = Vec::new();
    let mut k: usize = 0;
    while k < ms.len()
        invariant
            k <= ms@.len(),
            out@.len() == listed_memberships(ms@, views(ids@), k as int).len(),
            forall|j: int| 0 <= j < out@.len() ==> user_copy(
                #[trigger] out@[j],
                listed_memberships(ms@, views(ids@), k as int)[j],
                "user split"@,
            ),
        decreases ms.len() - k,
    {
        let ghost before = out@;
        if holds(ids, ms[k].node_id.as_str()) {
            let current = ms[k].duplicate();
            out.push(FeatureMembership { source: MembershipSource::User, reason: String::from_str("user split"), ..current });
            proof {
                assert forall|j: int| 0 <= j < out@.len() implies user_copy(
                    #[trigger] out@[j],
                    listed_memberships(ms@, views(ids@), k + 1)[j],
                    "user split"@,
                ) by {
                    if j < before.len() {
                        assert(out@[j] == before[j]);
                    }
                }
            }
        }
        k = k + 1;
    }
    out
}

/// `e` is the first edge of the graph with the id.
pub open spec fn first_edge_at(g: ProjectGraph, id: Seq<char>, e: int) -> bool {
    0 <= e < g.edges@.len() && g.edges@[e].id@ == id && (forall|q: int| 0 <= q < e ==> g.edges@[q].id@ != id)
}

/// The edge of the graph first listed under the id joins two members.
pub open spec fn first_edge_inner(g: ProjectGraph, id: Seq<char>, ids: Seq<String>) -> bool {
    exists|e: int| #[trigger] first_edge_at(g, id, e) && inner_edge(ids, g.edges@[e])
}

/// The listed edge ids, among the first `n`, whose first graph edge joins two members.
pub open spec fn edge_ids_within(g: ProjectGraph, edge_ids: Seq<String>, ids: Seq<String>, n: int) -> Seq<Seq<char>>
    decreases n,
{
    if n <= 0 {
        Seq::empty()
    } else if first_edge_inner(g, edge_ids[n - 1]@, ids) {
        edge_ids_within(g, edge_ids, ids, n - 1).push(edge_ids[n - 1]@)
    } else {
        edge_ids_within(g, edge_ids, ids, n - 1)
    }
}

fn edges_within(graph: &ProjectGraph, edge_ids: &Vec<String>, ids: &Vec<String>) -> (res: Vec<String>)
    ensures
        views(res@) == edge_ids_within(*graph, edge_ids@, ids@, edge_ids@.len() as int),
{
    let mut out: Vec<String> = Vec::new();
    let mut k: usize = 0;
    assert(views(out@) =~= Seq::<Seq<char>>::empty());
    while k < edge_ids.len()
        invariant
            k <= edge_ids@.len(),
            views(out@) == edge_ids_within(*graph, edge_ids@, ids@, k as int),
        decreases edge_ids.len() - k,
    {
        let ghost before = views(out@);
        let ghost id = edge_ids@[k as int]@;
        match first_edge_with_id(graph, edge_ids[k].as_str()) {
            Some(e) => {
                assert(first_edge_at(*graph, id, e as int));
                if is_inner(ids, &graph.edges[e]) {
                    out.push(edge_ids[k].clone());
                    assert(views(out@) =~= before.push(id));
                } else {
                    proof {
                        if first_edge_inner(*graph, id, ids@) {
                            let e2 = choose|e2: int| #[trigger] first_edge_at(*graph, id, e2) && inner_edge(ids@, graph.edges@[e2]);
                            if e2 < e {
                                assert(graph.edges@[e2].id@ != id);
                            } else if e2 > e {
                                assert(graph.edges@[e as int].id@ != id);
                            }
                        }
                    }
                }
            },
            None => {
                proof {
                    if first_edge_inner(*graph, id, ids@) {
                        let e2 = choose|e2: int| #[trigger] first_edge_at(*graph, id, e2) && inner_edge(ids@, graph.edges@[e2]);
                        assert(graph.edges@[e2].id@ != id);
                    }
                }
            },
        }
        k = k + 1;
    }
    out
}

/// Checks the memberships of the parts, in order: the first part where a violation shows,
/// if any.
fn check_split_memberships(original: &Feature, parts: &Vec<SplitFeaturePart>) -> (res: Option<usize>)
    ensures
        res is None <==> split_memberships_ok(*original, parts@),
        res matches Some(p) ==> p < parts@.len(),
{
    let mut used: Vec<String> = Vec::new();
    let mut p: usize = 0;
    while p < parts.len()
        invariant
            p <= parts@.len(),
            views(used@) == part_ids(parts@.subrange(0, p as int)),
            split_memberships_ok(*original, parts@.subrange(0, p as int)),
        decreases parts.len() - p,
    {
        let part = &parts[p];
        let ghost prefix = parts@.subrange(0, p as int);
        let ghost next = parts@.subrange(0, p + 1);
        proof {
            assert(next.drop_last() =~= prefix);
            assert(next.last() == *part);
        }
        if part.node_ids.len() == 0 {
            proof {
                lemma_split_prefix_bad(*original, parts@, p as int);
            }
            return Some(p);
        }
        let mut i: usize = 0;
        while i < part.node_ids.len()
            invariant
                i <= part.node_ids@.len(),
                p < parts@.len(),
                *part == parts@[p as int],
                prefix == parts@.subrange(0, p as int),
                views(used@) == part_ids(prefix) + views(part.node_ids@).subrange(0, i as int),
                forall|a: int, b: int| 0 <= a < b < used@.len() ==> #[trigger] views(used@)[a] != #[trigger] views(used@)[b],
                forall|a: int| 0 <= a < used@.len() ==> views(original.node_ids@).contains(#[trigger] views(used@)[a]),
            decreases part.node_ids.len() - i,
        {
            let id = part.node_ids[i].as_str();
            if !holds(&original.node_ids, id) || holds(&used, id) {
                proof {
                    lemma_split_node_bad(*original, parts@, p as int, i as int, views(used@));
                }
                return Some(p);
            }
            let ghost before = views(used@);
            used.push(part.node_ids[i].clone());
            proof {
                assert(views(used@) =~= before.push(id@));
                assert(views(part.node_ids@).subrange(0, i + 1) =~= views(part.node_ids@).subrange(0, i as int).push(id@));
                assert forall|a: int, b: int| 0 <= a < b < used@.len() implies #[trigger] views(used@)[a] != #[trigger] views(used@)[b] by {
                    if b == used@.len() - 1 {
                        assert(views(used@)[a] == before[a]);
                        if before[a] == id@ {
                            assert(before.contains(id@));
                        }
                    } else {
                        assert(views(used@)[a] == before[a] && views(used@)[b] == before[b]);
                    }
                }
                assert forall|a: int| 0 <= a < used@.len() implies views(original.node_ids@).contains(#[trigger] views(used@)[a]) by {
                    if a < used@.len() - 1 {
                        assert(views(used@)[a] == before[a]);
                    }
                }
            }
            i = i + 1;
        }
        proof {
            assert(views(part.node_ids@).subrange(0, part.node_ids@.len() as int) =~= views(part.node_ids@));
            assert(part_ids(next) == part_ids(prefix) + views(part.node_ids@));
            assert forall|q: int| 0 <= q < next.len() implies (#[trigger] next[q]).node_ids@.len() > 0 by {
                if q < p {
                    assert(next[q] == prefix[q]);
                }
            }
        }
        p = p + 1;
    }
    assert(parts@.subrange(0, parts@.len() as int) =~= parts@);
    None
}

proof fn lemma_part_ids_prefix(parts: Seq<SplitFeaturePart>, p: int)
    requires
        0 <= p <= parts.len(),
    ensures
        part_ids(parts).subrange(0, part_ids(parts.subrange(0, p)).len() as int) == part_ids(parts.subrange(0, p)),
        part_ids(parts.subrange(0, p)).len() <= part_ids(parts).len(),
    decreases parts.len() - p,
{
    if p < parts.len() {
        lemma_part_ids_prefix(parts, p + 1);
        let next = parts.subrange(0, p + 1);
        assert(next.drop_last() =~= parts.subrange(0, p));
        let a = part_ids(parts.subrange(0, p));
        let b = part_ids(next);
        assert(b == a + views(parts[p].node_ids@));
        assert(b.subrange(0, a.len() as int) =~= a);
        assert(part_ids(parts).subrange(0, a.len() as int) =~= b.subrange(0, a.len() as int));
    } else {
        assert(parts.subrange(0, p) =~= parts);
        assert(part_ids(parts).subrange(0, part_ids(parts).len() as int) =~= part_ids(parts));
    }
}

proof fn lemma_split_prefix_bad(original: Feature, parts: Seq<SplitFeaturePart>, p: int)
    requires
        0 <= p < parts.len(),
        parts[p].node_ids@.len() == 0,
    ensures
        !split_memberships_ok(original, parts),
{
}

proof fn lemma_split_node_bad(original: Feature, parts: Seq<SplitFeaturePart>, p: int, i: int, used: Seq<Seq<char>>)
    requires
        0 <= p < parts.len(),
        0 <= i < parts[p].node_ids@.len(),
        used == part_ids(parts.subrange(0, p)) + views(parts[p].node_ids@).subrange(0, i),
        !views(original.node_ids@).contains(parts[p].node_ids@[i]@) || used.contains(parts[p].node_ids@[i]@),
    ensures
        !split_memberships_ok(original, parts),
{
    let x = parts[p].node_ids@[i]@;
    let all = part_ids(parts);
    let pre = part_ids(parts.subrange(0, p));
    lemma_part_ids_prefix(parts, p + 1);
    let next = parts.subrange(0, p + 1);
    assert(next.drop_last() =~= parts.subrange(0, p));
    assert(part_ids(next) == pre + views(parts[p].node_ids@));
    let pos = pre.len() + i;
    assert(part_ids(next)[pos] == x);
    assert(all[pos] == part_ids(next)[pos]);
    if !views(original.node_ids@).contains(x) {
        assert(!views(original.node_ids@).contains(all[pos]));
    } else {
        let j = choose|j: int| 0 <= j < used.len() && used[j] == x;
        assert(used[j] == part_ids(next)[j]);
        assert(all[j] == part_ids(next)[j]);
        assert(j < pos);
        assert(all[j] == all[pos]);
    }
}

/// Every node of the part is a first-party node of the graph.
pub open spec fn part_nodes_ok(g: ProjectGraph, part: SplitFeaturePart) -> bool {
    forall|j: int| 0 <= j < part.node_ids@.len() ==> g_ok(g, #[trigger] part.node_ids@[j]@)
}

/// The edge ids kept between members are ids of edges of the graph.
proof fn lemma_edges_within_known(g: ProjectGraph, edge_ids: Seq<String>, ids: Seq<String>, n: int)
    requires
        n <= edge_ids.len(),
    ensures
        forall|j: int| 0 <= j < edge_ids_within(g, edge_ids, ids, n).len()
            ==> edge_known(g, #[trigger] edge_ids_within(g, edge_ids, ids, n)[j]),
    decreases n,
{
    if n > 0 {
        lemma_edges_within_known(g, edge_ids, ids, n - 1);
        let before = edge_ids_within(g, edge_ids, ids, n - 1);
        if first_edge_inner(g, edge_ids[n - 1]@, ids) {
            let e = choose|e: int| #[trigger] first_edge_at(g, edge_ids[n - 1]@, e) && inner_edge(ids, g.edges@[e]);
            assert(edge_known(g, edge_ids[n - 1]@));
            assert forall|j: int| 0 <= j < before.push(edge_ids[n - 1]@).len()
                implies edge_known(g, #[trigger] before.push(edge_ids[n - 1]@)[j]) by {
                if j < before.len() {
                    assert(before.push(edge_ids[n - 1]@)[j] == before[j]);
                }
            }
        }
    }
}

/// Splits a feature into the parts the user chose.
///
/// Fewer than two parts are refused (400); so are parts that are empty, repeat a node, or
/// hold a node the feature does not have (422), and parts without an entry point of the
/// feature (422). Part `k` (counted from 1) becomes the edited feature `<id>:split:<k>`
/// with the part's name and nodes, the feature's entry points among them, the feature's
/// edges between them and their memberships; it is returned only when every part passes
/// validation (otherwise 422).
pub fn split_feature_parts(
    graph: &ProjectGraph,
    roles: &Vec<ArchitectureRole>,
    original: &Feature,
    parts: &Vec<SplitFeaturePart>,
) -> (res: Result<Vec<Feature>, EditError>)
    requires
        roles@.len() == graph.nodes@.len(),
    ensures
        parts@.len() < 2 ==> fails_with(res, 400),
        parts@.len() >= 2 && !split_memberships_ok(*original, parts@) ==> fails_with(res, 422),
        parts@.len() >= 2 && !parts_have_entries(*original, parts@) ==> fails_with(res, 422),
        parts@.len() >= 2 ==> (res is Ok || fails_with(res, 422)),
        parts@.len() >= 2 && split_memberships_ok(*original, parts@) && parts_have_entries(*original, parts@)
            ==> (res is Ok <==> forall|k: int| 0 <= k < parts@.len() ==> part_nodes_ok(*graph, #[trigger] parts@[k])),
        res matches Ok(v) ==> v@.len() == parts@.len() && forall|k: int| 0 <= k < v@.len()
            ==> spec_feature_valid(*graph, #[trigger] v@[k]) && v@[k].node_ids@ == parts@[k].node_ids@
                && v@[k].name == parts@[k].name && v@[k].status == FeatureStatus::Edited,
{
    if parts.len() < 2 {
        return Err(refuse(400, "provide at least two split parts"));
    }
    let first_bad = check_split_memberships(original, parts);
    let mut out: Vec<Feature> = Vec::new();
    let mut p: usize = 0;
    while p < parts.len()
        invariant
            p <= parts@.len(),
            parts@.len() >= 2,
            roles@.len() == graph.nodes@.len(),
            first_bad is None <==> split_memberships_ok(*original, parts@),
            first_bad matches Some(b) ==> p <= b < parts@.len(),
            out@.len() == p,
            forall|k: int| 0 <= k < p ==> holds_entry(*original, #[trigger] parts@[k].node_ids@),
            forall|k: int| 0 <= k < p ==> spec_feature_valid(*graph, #[trigger] out@[k]) && out@[k].node_ids@ == parts@[k].node_ids@
                && out@[k].name == parts@[k].name && out@[k].status == FeatureStatus::Edited,
            forall|k: int| 0 <= k < p ==> part_nodes_ok(*graph, #[trigger] parts@[k]),
        decreases parts.len() - p,
    {
        if first_bad == Some(p) {
            return Err(refuse(422, "split memberships must be non-empty, unique, and belong to the source Feature"));
        }
        let part = &parts[p];
        let entries = entries_in(original, &part.node_ids);
        if entries.len() == 0 {
            return Err(refuse(422, "every split part must contain an original entry point"));
        }
        proof {
            let x = entries@[0]@;
            assert(views(entries@)[0] == x);
            assert(views(entries@).contains(x));
            assert(views(original.entry_point_node_ids@).contains(x));
            let e = choose|e: int| 0 <= e < views(original.entry_point_node_ids@).len() && views(original.entry_point_node_ids@)[e] == x;
            assert(original.entry_point_node_ids@[e]@ == x);
        }
        let mut value = original.duplicate();
        let mut id = chars_of(original.id.as_str());
        append_chars(&mut id, &chars_of(":split:"));
        append_chars(&mut id, &crate::text::decimal(p + 1));
        value.id = string_of(&id);
        value.name = part.name.clone();
        value.node_ids = crate::text::copy_strings(&part.node_ids);
        value.entry_point_node_ids = entries;
        value.edge_ids = edges_within(graph, &original.edge_ids, &part.node_ids);
        value.memberships = user_split_memberships(&original.memberships, &part.node_ids);
        value.status = FeatureStatus::Edited;
        value.source_hash = short_digest(join_ids(&value.node_ids).as_str());
        proof {
            lemma_edges_within_known(*graph, original.edge_ids@, part.node_ids@, original.edge_ids@.len() as int);
            assert forall|k: int| 0 <= k < value.edge_ids@.len() implies edge_known(*graph, #[trigger] value.edge_ids@[k]@) by {
                assert(views(value.edge_ids@)[k] == value.edge_ids@[k]@);
            }
            assert forall|k: int| 0 <= k < value.entry_point_node_ids@.len() implies id_listed(
                value.node_ids@,
                #[trigger] value.entry_point_node_ids@[k]@,
            ) by {
                assert(views(value.entry_point_node_ids@)[k] == value.entry_point_node_ids@[k]@);
                assert(views(value.entry_point_node_ids@).contains(value.entry_point_node_ids@[k]@));
                assert(views(part.node_ids@).contains(value.entry_point_node_ids@[k]@));
                let j = choose|j: int| 0 <= j < views(part.node_ids@).len() && views(part.node_ids@)[j]
                    == value.entry_point_node_ids@[k]@;
                assert(value.node_ids@[j]@ == value.entry_point_node_ids@[k]@);
            }
            assert(spec_feature_valid(*graph, value) <==> part_nodes_ok(*graph, parts@[p as int]));
        }
        match validate_feature(graph, &value) {
            Ok(()) => {},
            Err(message) => {
                return Err(EditError { status: 422, message });
            },
        }
        out.push(value);
        proof {
            assert forall|k: int| 0 <= k < p + 1 implies spec_feature_valid(*graph, #[trigger] out@[k]) && out@[k].node_ids@ == parts@[k].node_ids@
                && out@[k].name == parts@[k].name && out@[k].status == FeatureStatus::Edited by {
                if k < p {
                    assert(out@[k] == out@.drop_last()[k]);
                }
            }
        }
        p = p + 1;
    }
    Ok(out)
}

} // verus!
