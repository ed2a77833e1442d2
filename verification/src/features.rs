//! Features: functional flows anchored on entry points, their members and their documents.
use vstd::prelude::*;

use crate::model::{CodeEdge, CodeNode, NodeKind, ProjectGraph, RelationKind, str_equal};
use crate::text::{chars_of, insert_sorted_unique, string_of, strictly_sorted, views};

verus! {

/// Review state of a feature.
#[derive(Clone, Copy, Debug, PartialEq, Eq, Structural)]
pub enum FeatureStatus {
    Detected,
    Accepted,
    Edited,
    Ignored,
}

/// Who decided that a node belongs to a feature.
#[derive(Clone, Copy, Debug, PartialEq, Eq, Structural)]
pub enum MembershipSource {
    Deterministic,
    Ai,
    User,
}

/// A node's membership in a feature; confidence in thousandths.
#[derive(Clone, Debug)]
pub struct FeatureMembership {
    pub node_id: String,
    pub confidence_permille: u32,
    pub reason: String,
    pub source: MembershipSource,
    pub optional: bool,
    pub external_dependency: bool,
}

/// A functional flow of the project. Confidence and completeness are in thousandths.
#[derive(Clone, Debug)]
pub struct Feature {
    pub id: String,
    pub project_id: String,
    pub name: String,
    pub description: String,
    pub confidence_permille: u32,
    pub completeness_permille: u32,
    pub missing_signals: Vec<String>,
    pub status: FeatureStatus,
    pub entry_point_node_ids: Vec<String>,
    pub node_ids: Vec<String>,
    pub edge_ids: Vec<String>,
    pub memberships: Vec<FeatureMembership>,
    pub routes: Vec<String>,
    pub pages: Vec<String>,
    pub services: Vec<String>,
    pub repositories: Vec<String>,
    pub models: Vec<String>,
    pub entities: Vec<String>,
    pub templates: Vec<String>,
    pub tests: Vec<String>,
    pub external_services: Vec<String>,
    pub business_rules: Vec<String>,
    pub inputs: Vec<String>,
    pub outputs: Vec<String>,
    pub side_effects: Vec<String>,
    pub security_constraints: Vec<String>,
    pub source_hash: String,
    pub ai_provider: Option<String>,
    pub ai_model: Option<String>,
    pub prompt_version: String,
    pub created_at: i64,
    pub updated_at: i64,
}

/// The specification of a feature.
#[derive(Clone, Debug)]
pub struct FeatureSpec {
    pub name: String,
    pub description: String,
    pub actors: Vec<String>,
    pub entry_points: Vec<String>,
    pub inputs: Vec<String>,
    pub outputs: Vec<String>,
    pub business_rules: Vec<String>,
    pub operations: Vec<String>,
    pub data: Vec<String>,
    pub side_effects: Vec<String>,
    pub security: Vec<String>,
    pub error_cases: Vec<String>,
    pub acceptance_criteria: Vec<String>,
    pub dependencies: Vec<String>,
    pub provenance: String,
}

/// A fragment of source code belonging to a feature.
#[derive(Clone, Debug)]
pub struct FeatureCodeSnippet {
    pub project_id: String,
    pub node_id: String,
    pub name: String,
    pub language: Option<String>,
    pub architecture_role: String,
    pub path: String,
    pub start_line: usize,
    pub end_line: usize,
    pub source: String,
    pub source_hash: String,
    pub membership_reason: String,
}

/// A file of a feature with its fragments.
#[derive(Clone, Debug)]
pub struct FeatureSourceFile {
    pub path: String,
    pub language: Option<String>,
    pub architecture_role: String,
    pub source_hash: String,
    pub fragments: Vec<FeatureCodeSnippet>,
}

/// A line of a feature's source that matches a search.
#[derive(Clone, Debug)]
pub struct FeatureSourceSearchHit {
    pub path: String,
    pub node_id: String,
    pub symbol: String,
    pub line: usize,
    pub preview: String,
}

/// A feature saved in the library, to be reused in other projects.
#[derive(Clone, Debug)]
pub struct FeatureLibraryEntry {
    pub id: String,
    pub source_feature_id: String,
    pub source_project_id: String,
    pub name: String,
    pub languages: Vec<String>,
    pub frameworks: Vec<String>,
    pub source_hash: String,
    pub spec: FeatureSpec,
    pub documentation: String,
    pub acceptance_criteria: Vec<String>,
    pub security_notes: Vec<String>,
    pub architecture_summary: String,
    pub created_at: i64,
    pub updated_at: i64,
}

/// The documentation of a feature.
#[derive(Clone, Debug)]
pub struct FeatureDocumentation {
    pub feature_id: String,
    pub purpose: String,
    pub actors: Vec<String>,
    pub entry_points: Vec<String>,
    pub flow: Vec<String>,
    pub business_rules: Vec<String>,
    pub inputs: Vec<String>,
    pub outputs: Vec<String>,
    pub data: Vec<String>,
    pub side_effects: Vec<String>,
    pub security: Vec<String>,
    pub error_cases: Vec<String>,
    pub tests: Vec<String>,
    pub dependencies: Vec<String>,
    pub known_limitations: Vec<String>,
    pub content_hash: String,
    pub provenance: String,
}

impl FeatureMembership {
    /// A field-by-field copy of the membership.
    pub fn duplicate(&self) -> (res: FeatureMembership)
        ensures
            res == *self,
    {
        FeatureMembership {
            node_id: self.node_id.clone(),
            confidence_permille: self.confidence_permille,
            reason: self.reason.clone(),
            source: self.source,
            optional: self.optional,
            external_dependency: self.external_dependency,
        }
    }
}

pub(crate) fn copy_memberships(v: &Vec<FeatureMembership>) -> (res: Vec<FeatureMembership>)
    ensures
        res@ == v@,
{
    let mut out: Vec<FeatureMembership> = Vec::new();
    let mut k: usize = 0;
    while k < v.len()
        invariant
            k <= v@.len(),
            out@ == v@.subrange(0, k as int),
        decreases v.len() - k,
    {
        out.push(v[k].duplicate());
        assert(out@ =~= v@.subrange(0, k + 1));
        k = k + 1;
    }
    assert(v@.subrange(0, v@.len() as int) =~= v@);
    out
}

impl Feature {
    /// Two features hold the same values, lists compared by their contents.
    pub open spec fn same_as(self, other: Feature) -> bool {
        &&& self.id == other.id
        &&& self.project_id == other.project_id
        &&& self.name == other.name
        &&& self.description == other.description
        &&& self.confidence_permille == other.confidence_permille
        &&& self.completeness_permille == other.completeness_permille
        &&& self.status == other.status
        &&& self.source_hash == other.source_hash
        &&& self.ai_provider == other.ai_provider
        &&& self.ai_model == other.ai_model
        &&& self.prompt_version == other.prompt_version
        &&& self.created_at == other.created_at
        &&& self.updated_at == other.updated_at
        &&& self.missing_signals@ == other.missing_signals@
        &&& self.entry_point_node_ids@ == other.entry_point_node_ids@
        &&& self.node_ids@ == other.node_ids@
        &&& self.edge_ids@ == other.edge_ids@
        &&& self.memberships@ == other.memberships@
        &&& self.routes@ == other.routes@
        &&& self.pages@ == other.pages@
        &&& self.services@ == other.services@
        &&& self.repositories@ == other.repositories@
        &&& self.models@ == other.models@
        &&& self.entities@ == other.entities@
        &&& self.templates@ == other.templates@
        &&& self.tests@ == other.tests@
        &&& self.external_services@ == other.external_services@
        &&& self.business_rules@ == other.business_rules@
        &&& self.inputs@ == other.inputs@
        &&& self.outputs@ == other.outputs@
        &&& self.side_effects@ == other.side_effects@
        &&& self.security_constraints@ == other.security_constraints@
    }

    /// A field-by-field copy of the feature.
    pub fn duplicate(&self) -> (res: Feature)
        ensures
            res.same_as(*self),
    {
        Feature {
            id: self.id.clone(),
            project_id: self.project_id.clone(),
            name: self.name.clone(),
            description: self.description.clone(),
            confidence_permille: self.confidence_permille,
            completeness_permille: self.completeness_permille,
            missing_signals: crate::text::copy_strings(&self.missing_signals),
            status: self.status,
            entry_point_node_ids: crate::text::copy_strings(&self.entry_point_node_ids),
            node_ids: crate::text::copy_strings(&self.node_ids),
            edge_ids: crate::text::copy_strings(&self.edge_ids),
            memberships: copy_memberships(&self.memberships),
            routes: crate::text::copy_strings(&self.routes),
            pages: crate::text::copy_strings(&self.pages),
            services: crate::text::copy_strings(&self.services),
            repositories: crate::text::copy_strings(&self.repositories),
            models: crate::text::copy_strings(&self.models),
            entities: crate::text::copy_strings(&self.entities),
            templates: crate::text::copy_strings(&self.templates),
            tests: crate::text::copy_strings(&self.tests),
            external_services: crate::text::copy_strings(&self.external_services),
            business_rules: crate::text::copy_strings(&self.business_rules),
            inputs: crate::text::copy_strings(&self.inputs),
            outputs: crate::text::copy_strings(&self.outputs),
            side_effects: crate::text::copy_strings(&self.side_effects),
            security_constraints: crate::text::copy_strings(&self.security_constraints),
            source_hash: self.source_hash.clone(),
            ai_provider: crate::model::copy_opt_string(&self.ai_provider),
            ai_model: crate::model::copy_opt_string(&self.ai_model),
            prompt_version: self.prompt_version.clone(),
            created_at: self.created_at,
            updated_at: self.updated_at,
        }
    }
}

/// The first edge of the graph with the id.
fn edge_with_id(graph: &ProjectGraph, id: &str) -> (res: Option<usize>)
    ensures
        match res {
            Some(e) => e < graph.edges@.len() && graph.edges@[e as int].id@ == id@,
            None => forall|e: int| 0 <= e < graph.edges@.len() ==> graph.edges@[e].id@ != id@,
        },
{
    let mut e: usize = 0;
    while e < graph.edges.len()
        invariant
            e <= graph.edges@.len(),
            forall|j: int| 0 <= j < e ==> graph.edges@[j].id@ != id@,
        decreases graph.edges.len() - e,
    {
        if str_equal(graph.edges[e].id.as_str(), id) {
            return Some(e);
        }
        e = e + 1;
    }
    None
}

/// The documentation of a feature, written from its specification and its edges.
pub fn build_feature_documentation(graph: &ProjectGraph, feature: &Feature, spec: &FeatureSpec) -> (res: FeatureDocumentation)
    ensures
        res.feature_id == feature.id,
        res.purpose == spec.description,
        res.actors@ == spec.actors@,
        res.entry_points@ == spec.entry_points@,
        res.flow@.len() <= 100,
        res.business_rules@ == spec.business_rules@,
        res.inputs@ == spec.inputs@,
        res.outputs@ == spec.outputs@,
        res.data@ == spec.data@,
        res.side_effects@ == spec.side_effects@,
        res.security@ == spec.security@,
        res.error_cases@ == spec.error_cases@,
        res.tests@ == spec.acceptance_criteria@,
        res.dependencies@ == spec.dependencies@,
        res.known_limitations@.len() == if feature.ai_provider is None { 1int } else { 0int },
        res.content_hash == feature.source_hash,
        res.provenance == spec.provenance,
{
    let mut flow: Vec<String> = Vec::new();
    let mut k: usize = 0;
    while k < feature.edge_ids.len() && flow.len() < 100
        invariant
            k <= feature.edge_ids@.len(),
            flow@.len() <= 100,
        decreases feature.edge_ids.len() - k,
    {
        match edge_with_id(graph, feature.edge_ids[k].as_str()) {
            Some(e) => {
                let edge = &graph.edges[e];
                let mut line = edge.source_id.clone();
                line.append(" —");
                line.append(edge.relation.as_str());
                line.append("→ ");
                line.append(edge.target_id.as_str());
                flow.push(line);
            },
            None => {},
        }
        k = k + 1;
    }
    let mut known_limitations: Vec<String> = Vec::new();
    if feature.ai_provider.is_none() {
        known_limitations.push(String::from_str("Semantic decomposition has not been AI-enriched or user-accepted."));
    }
    FeatureDocumentation {
        feature_id: feature.id.clone(),
        purpose: spec.description.clone(),
        actors: crate::text::copy_strings(&spec.actors),
        entry_points: crate::text::copy_strings(&spec.entry_points),
        flow,
        business_rules: crate::text::copy_strings(&spec.business_rules),
        inputs: crate::text::copy_strings(&spec.inputs),
        outputs: crate::text::copy_strings(&spec.outputs),
        data: crate::text::copy_strings(&spec.data),
        side_effects: crate::text::copy_strings(&spec.side_effects),
        security: crate::text::copy_strings(&spec.security),
        error_cases: crate::text::copy_strings(&spec.error_cases),
        tests: crate::text::copy_strings(&spec.acceptance_criteria),
        dependencies: crate::text::copy_strings(&spec.dependencies),
        known_limitations,
        content_hash: feature.source_hash.clone(),
        provenance: spec.provenance.clone(),
    }
}

// ---------------------------------------------------------------------------
// Entry points and members
// ---------------------------------------------------------------------------

/// The kinds that anchor a feature.
pub open spec fn spec_feature_root(kind: NodeKind) -> bool {
    kind == NodeKind::EntryPoint || kind == NodeKind::Route || kind == NodeKind::ApiEndpoint || kind == NodeKind::Page
        || kind == NodeKind::Command || kind == NodeKind::Cli || kind == NodeKind::Worker || kind == NodeKind::Job
        || kind == NodeKind::Queue || kind == NodeKind::Event || kind == NodeKind::WebSocket
}

/// Whether a node of this kind anchors a feature.
pub fn feature_root(kind: NodeKind) -> (res: bool)
    ensures
        res == spec_feature_root(kind),
{
    match kind {
        NodeKind::EntryPoint | NodeKind::Route | NodeKind::ApiEndpoint | NodeKind::Page | NodeKind::Command
        | NodeKind::Cli | NodeKind::Worker | NodeKind::Job | NodeKind::Queue | NodeKind::Event
        | NodeKind::WebSocket => true,
        _ => false,
    }
}

/// How much a relation costs when a feature grows along it; relations not followed have
/// none.
pub open spec fn spec_relation_cost(relation: RelationKind) -> Option<i32> {
    match relation {
        RelationKind::RoutesTo | RelationKind::HandledBy => Some(5),
        RelationKind::Calls => Some(8),
        RelationKind::Reads | RelationKind::Writes | RelationKind::Renders => Some(10),
        RelationKind::Uses | RelationKind::Creates | RelationKind::Emits | RelationKind::Listens => Some(14),
        RelationKind::DependsOn | RelationKind::Returns => Some(20),
        RelationKind::Imports => Some(28),
        _ => None,
    }
}

/// The cost of following a relation while growing a feature.
pub fn feature_relation_cost(relation: RelationKind) -> (res: Option<i32>)
    ensures
        res == spec_relation_cost(relation),
{
    match relation {
        RelationKind::RoutesTo | RelationKind::HandledBy => Some(5),
        RelationKind::Calls => Some(8),
        RelationKind::Reads | RelationKind::Writes | RelationKind::Renders => Some(10),
        RelationKind::Uses | RelationKind::Creates | RelationKind::Emits | RelationKind::Listens => Some(14),
        RelationKind::DependsOn | RelationKind::Returns => Some(20),
        RelationKind::Imports => Some(28),
        _ => None,
    }
}

/// The uppercase form of a character, as `char::to_uppercase` gives it (possibly several
/// characters).
pub uninterp spec fn spec_char_uppercase(c: char) -> Seq<char>;

/// Calls `char::to_uppercase` and collects it: the Unicode uppercase mapping of the
/// character, a function of the character alone.
#[verifier::external_body]
fn char_uppercase(c: char) -> (res: String)
    ensures
        res@ == spec_char_uppercase(c),
{
    c.to_uppercase().collect()
}

/// `s` without trailing repetitions of `suffix`.
fn trim_end_repeated(s: &Vec<char>, suffix: &str) -> (res: Vec<char>)
    ensures
        res@ == crate::framework::spec_trim_end_matches(s@, suffix@),
{
    let p = chars_of(suffix);
    let mut out = crate::text::slice_chars(s, 0, s.len());
    assert(s@.subrange(0, s@.len() as int) =~= s@);
    if p.len() == 0 {
        return out;
    }
    while crate::text::ends_with(&out, &p)
        invariant
            p@.len() > 0,
            p@ == suffix@,
            crate::framework::spec_trim_end_matches(out@, p@) == crate::framework::spec_trim_end_matches(s@, suffix@),
        decreases out@.len(),
    {
        let n = out.len() - p.len();
        out = crate::text::slice_chars(&out, 0, n);
    }
    out
}

/// `_` and `-` read as spaces.
pub open spec fn separator_to_space(c: char) -> char {
    if c == '_' || c == '-' { ' ' } else { c }
}

/// The framework suffixes a feature name loses.
pub open spec fn name_suffixes() -> Seq<Seq<char>> {
    seq!["Controller"@, "Handler"@, "Command"@, "Page"@, "Route"@, "Endpoint"@, "Job"@, "Worker"@]
}

/// The name after the first `k` suffixes were trimmed off its end in turn, trimming the
/// whitespace after each.
pub open spec fn without_suffixes(name: Seq<char>, k: int) -> Seq<char>
    decreases k,
{
    if k <= 0 {
        name
    } else {
        crate::text::spec_trim(crate::framework::spec_trim_end_matches(without_suffixes(name, k - 1), name_suffixes()[k - 1]))
    }
}

/// The title-cased words read so far, whether a word starts at the next character, and
/// whether a word was written.
pub open spec fn title_state(s: Seq<char>) -> (Seq<char>, bool, bool)
    decreases s.len(),
{
    if s.len() == 0 {
        (Seq::empty(), true, false)
    } else {
        let st = title_state(s.drop_last());
        let c = s.last();
        if crate::text::is_ws(c) {
            (st.0, true, st.2)
        } else if st.1 {
            ((if st.2 { st.0.push(' ') } else { st.0 }) + spec_char_uppercase(c), false, true)
        } else {
            (st.0.push(c), false, st.2)
        }
    }
}

/// A readable name for a feature anchored on a node with that name: separators become
/// spaces, framework suffixes go, and each word starts with a capital, words separated by
/// one space; the name itself when nothing remains.
pub open spec fn spec_feature_name(raw: Seq<char>) -> Seq<char> {
    let name = without_suffixes(raw.map_values(|c: char| separator_to_space(c)), 8);
    if name.len() == 0 { raw } else { title_state(name).0 }
}

/// A readable name for a feature anchored on the node: separators become spaces, framework
/// suffixes go, and each word starts with a capital.
pub fn feature_name(node: &CodeNode) -> (res: String)
    ensures
        res@ == spec_feature_name(node.name@),
{
    let mut name: Vec<char> = Vec::new();
    let raw = chars_of(node.name.as_str());
    let mut i: usize = 0;
    while i < raw.len()
        invariant
            i <= raw@.len(),
            name@ == raw@.subrange(0, i as int).map_values(|c: char| separator_to_space(c)),
        decreases raw.len() - i,
    {
        name.push(if raw[i] == '_' || raw[i] == '-' { ' ' } else { raw[i] });
        assert(raw@.subrange(0, i + 1).map_values(|c: char| separator_to_space(c)) =~= raw@.subrange(0, i as int).map_values(
            |c: char| separator_to_space(c),
        ).push(separator_to_space(raw@[i as int])));
        i = i + 1;
    }
    assert(raw@.subrange(0, raw@.len() as int) =~= raw@);
    let ghost spaced = name@;
    let suffixes: Vec<&str> = vec!["Controller", "Handler", "Command", "Page", "Route", "Endpoint", "Job", "Worker"];
    assert(suffixes@.map_values(|t: &str| t@) =~= name_suffixes());
    let mut k: usize = 0;
    while k < suffixes.len()
        invariant
            k <= suffixes@.len(),
            suffixes@.map_values(|t: &str| t@) == name_suffixes(),
            name@ == without_suffixes(spaced, k as int),
        decreases suffixes.len() - k,
    {
        assert(name_suffixes()[k as int] == suffixes@[k as int]@);
        let trimmed = trim_end_repeated(&name, suffixes[k]);
        name = crate::text::trim(&trimmed);
        k = k + 1;
    }
    if name.len() == 0 {
        return node.name.clone();
    }
    let mut out: Vec<char> = Vec::new();
    let mut word_start = true;
    let mut j: usize = 0;
    let mut words: usize = 0;
    assert(name@.subrange(0, 0) =~= Seq::<char>::empty());
    while j < name.len()
        invariant
            j <= name@.len(),
            (out@, word_start, words > 0) == title_state(name@.subrange(0, j as int)),
        decreases name.len() - j,
    {
        let ghost pre = name@.subrange(0, j + 1);
        assert(pre.drop_last() =~= name@.subrange(0, j as int));
        assert(pre.last() == name@[j as int]);
        let c = name[j];
        if crate::text::is_whitespace(c) {
            word_start = true;
        } else {
            if word_start {
                if words > 0 {
                    out.push(' ');
                }
                let upper = char_uppercase(c);
                crate::text::append_chars(&mut out, &chars_of(upper.as_str()));
                words = if words < usize::MAX { words + 1 } else { words };
                word_start = false;
            } else {
                out.push(c);
            }
        }
        j = j + 1;
    }
    assert(name@.subrange(0, name@.len() as int) =~= name@);
    string_of(&out)
}

/// `x` is the name of a node of `ids` whose kind is listed.
pub open spec fn named_among(g: ProjectGraph, ids: Seq<String>, kinds: Seq<NodeKind>, x: Seq<char>) -> bool {
    exists|k: int| 0 <= k < ids.len() && g.has_node(#[trigger] ids[k]@) && g.nodes@[g.node_index(ids[k]@)].name@ == x
        && kinds.contains(g.nodes@[g.node_index(ids[k]@)].kind)
}

/// `v` lists, sorted and each once, the names of the nodes of `ids` whose kind is listed.
pub open spec fn name_list(v: Seq<Seq<char>>, g: ProjectGraph, ids: Seq<String>, kinds: Seq<NodeKind>) -> bool {
    &&& strictly_sorted(v)
    &&& forall|x: Seq<char>| #[trigger] v.contains(x) <==> named_among(g, ids, kinds, x)
}

/// The names of the nodes of `ids` whose kind is listed, sorted, each once.
pub fn names(graph: &ProjectGraph, ids: &Vec<String>, kinds: &Vec<NodeKind>) -> (res: Vec<String>)
    ensures
        strictly_sorted(views(res@)),
        forall|x: Seq<char>| #[trigger] views(res@).contains(x) ==> exists|k: int| 0 <= k < ids@.len()
            && graph.has_node(ids@[k]@) && graph.nodes@[graph.node_index(ids@[k]@)].name@ == x
            && kinds@.contains(graph.nodes@[graph.node_index(ids@[k]@)].kind),
        forall|k: int| 0 <= k < ids@.len() && graph.has_node(#[trigger] ids@[k]@)
            && kinds@.contains(graph.nodes@[graph.node_index(ids@[k]@)].kind)
            ==> views(res@).contains(graph.nodes@[graph.node_index(ids@[k]@)].name@),
        name_list(views(res@), *graph, ids@, kinds@),
{
    let mut out: Vec<String> = Vec::new();
    proof {
        assert(views(out@) =~= Seq::<Seq<char>>::empty());
    }
    let mut k: usize = 0;
    while k < ids.len()
        invariant
            k <= ids@.len(),
            strictly_sorted(views(out@)),
            forall|x: Seq<char>| #[trigger] views(out@).contains(x) ==> exists|j: int| 0 <= j < k
                && graph.has_node(ids@[j]@) && graph.nodes@[graph.node_index(ids@[j]@)].name@ == x
                && kinds@.contains(graph.nodes@[graph.node_index(ids@[j]@)].kind),
            forall|j: int| 0 <= j < k && graph.has_node(#[trigger] ids@[j]@)
                && kinds@.contains(graph.nodes@[graph.node_index(ids@[j]@)].kind)
                ==> views(out@).contains(graph.nodes@[graph.node_index(ids@[j]@)].name@),
        decreases ids.len() - k,
    {
        match graph.find_node(ids[k].as_str()) {
            Some(node) => {
                let mut listed = false;
                let mut m: usize = 0;
                while m < kinds.len() && !listed
                    invariant
                        m <= kinds@.len(),
                        listed ==> kinds@.contains(node.kind),
                        !listed ==> forall|q: int| 0 <= q < m ==> kinds@[q] != node.kind,
                    decreases kinds.len() - m,
                {
                    if kinds[m] == node.kind {
                        listed = true;
                        assert(kinds@[m as int] == node.kind);
                    }
                    m = m + 1;
                }
                let ghost before = views(out@);
                if listed {
                    insert_sorted_unique(&mut out, node.name.clone());
                    proof {
                        assert forall|j: int| 0 <= j < k + 1 && graph.has_node(#[trigger] ids@[j]@)
                            && kinds@.contains(graph.nodes@[graph.node_index(ids@[j]@)].kind)
                            implies views(out@).contains(graph.nodes@[graph.node_index(ids@[j]@)].name@) by {
                            if j < k {
                                assert(before.contains(graph.nodes@[graph.node_index(ids@[j]@)].name@));
                            }
                        }
                        assert forall|x: Seq<char>| #[trigger] views(out@).contains(x) implies exists|j: int| 0 <= j < k + 1
                            && graph.has_node(ids@[j]@) && graph.nodes@[graph.node_index(ids@[j]@)].name@ == x
                            && kinds@.contains(graph.nodes@[graph.node_index(ids@[j]@)].kind) by {
                            if before.contains(x) {
                                let j = choose|j: int| 0 <= j < k
                                    && graph.has_node(ids@[j]@) && graph.nodes@[graph.node_index(ids@[j]@)].name@ == x
                                    && kinds@.contains(graph.nodes@[graph.node_index(ids@[j]@)].kind);
                                assert(0 <= j < k + 1);
                            } else {
                                assert(x == node.name@);
                                assert(0 <= k < k + 1);
                            }
                        }
                    }
                } else {
                    proof {
                        if kinds@.contains(node.kind) {
                            let q = choose|q: int| 0 <= q < kinds@.len() && kinds@[q] == node.kind;
                            assert(kinds@[q] != node.kind);
                        }
                    }
                }
            },
            None => {},
        }
        k = k + 1;
    }
    proof {
        assert forall|x: Seq<char>| #[trigger] views(out@).contains(x) <==> named_among(*graph, ids@, kinds@, x) by {
            if named_among(*graph, ids@, kinds@, x) {
                let k = choose|k: int| 0 <= k < ids@.len() && graph.has_node(#[trigger] ids@[k]@)
                    && graph.nodes@[graph.node_index(ids@[k]@)].name@ == x
                    && kinds@.contains(graph.nodes@[graph.node_index(ids@[k]@)].kind);
                assert(views(out@).contains(graph.nodes@[graph.node_index(ids@[k]@)].name@));
            }
        }
    }
    out
}

/// Why a feature cannot be accepted.
pub open spec fn spec_feature_valid(g: ProjectGraph, f: Feature) -> bool {
    &&& f.entry_point_node_ids@.len() > 0
    &&& forall|k: int| 0 <= k < f.node_ids@.len() ==> g.has_node(#[trigger] f.node_ids@[k]@)
        && g.nodes@[g.node_index(f.node_ids@[k]@)].source_scope.spec_library_eligible()
    &&& forall|k: int| 0 <= k < f.edge_ids@.len() ==> edge_known(g, #[trigger] f.edge_ids@[k]@)
    &&& forall|k: int| 0 <= k < f.entry_point_node_ids@.len() ==> id_listed(f.node_ids@, #[trigger] f.entry_point_node_ids@[k]@)
}

/// Some edge of the graph carries the id.
pub open spec fn edge_known(g: ProjectGraph, id: Seq<char>) -> bool {
    exists|e: int| 0 <= e < g.edges@.len() && g.edges@[e].id@ == id
}

/// Some string of `ids` is `id`.
pub open spec fn id_listed(ids: Seq<String>, id: Seq<char>) -> bool {
    exists|j: int| 0 <= j < ids.len() && ids[j]@ == id
}

fn holds_id(ids: &Vec<String>, id: &str) -> (res: bool)
    ensures
        res == exists|j: int| 0 <= j < ids@.len() && ids@[j]@ == id@,
{
    let mut j: usize = 0;
    while j < ids.len()
        invariant
            j <= ids@.len(),
            forall|i: int| 0 <= i < j ==> ids@[i]@ != id@,
        decreases ids.len() - j,
    {
        if str_equal(ids[j].as_str(), id) {
            return true;
        }
        j = j + 1;
    }
    false
}

/// The first member, from position `k` on, that is not a first-party node of the graph.
pub open spec fn first_bad_member(g: ProjectGraph, ids: Seq<String>, k: int) -> Option<int>
    decreases ids.len() - k,
{
    if k < 0 || k >= ids.len() {
        None
    } else if !(g.has_node(ids[k]@) && g.nodes@[g.node_index(ids[k]@)].source_scope.spec_library_eligible()) {
        Some(k)
    } else {
        first_bad_member(g, ids, k + 1)
    }
}

/// The first edge id, from position `k` on, that no edge of the graph carries.
pub open spec fn first_unknown_edge(g: ProjectGraph, ids: Seq<String>, k: int) -> Option<int>
    decreases ids.len() - k,
{
    if k < 0 || k >= ids.len() {
        None
    } else if !edge_known(g, ids[k]@) {
        Some(k)
    } else {
        first_unknown_edge(g, ids, k + 1)
    }
}

/// The message of the first violation validation reports, none for a valid feature:
/// no entry point, then the first member that is unknown or not first-party, then the
/// first unknown edge, then an entry point that is not a member.
pub open spec fn validation_message(g: ProjectGraph, f: Feature) -> Option<Seq<char>> {
    if f.entry_point_node_ids@.len() == 0 {
        Some("feature requires at least one entry point"@)
    } else {
        match first_bad_member(g, f.node_ids@, 0) {
            Some(k) => if !g.has_node(f.node_ids@[k]@) {
                Some("unknown node: "@ + f.node_ids@[k]@)
            } else {
                Some("external or generated core member: "@ + f.node_ids@[k]@)
            },
            None => match first_unknown_edge(g, f.edge_ids@, 0) {
                Some(k) => Some("unknown edge: "@ + f.edge_ids@[k]@),
                None => if exists|i: int| 0 <= i < f.entry_point_node_ids@.len() && !id_listed(
                    f.node_ids@,
                    #[trigger] f.entry_point_node_ids@[i]@,
                ) {
                    Some("entry point is not a feature member"@)
                } else {
                    None
                },
            },
        }
    }
}

/// Checks that a feature has an entry point, that its members are known first-party nodes,
/// that its edges exist and that its entry points are members; the first violation is
/// reported.
pub fn validate_feature(graph: &ProjectGraph, feature: &Feature) -> (res: Result<(), String>)
    ensures
        res is Ok <==> spec_feature_valid(*graph, *feature),
        match res {
            Ok(()) => validation_message(*graph, *feature) is None,
            Err(m) => validation_message(*graph, *feature) == Some(m@),
        },
{
    if feature.entry_point_node_ids.len() == 0 {
        return Err(String::from_str("feature requires at least one entry point"));
    }
    let mut k: usize = 0;
    while k < feature.node_ids.len()
        invariant
            k <= feature.node_ids@.len(),
            feature.entry_point_node_ids@.len() > 0,
            forall|j: int| 0 <= j < k ==> graph.has_node(#[trigger] feature.node_ids@[j]@)
                && graph.nodes@[graph.node_index(feature.node_ids@[j]@)].source_scope.spec_library_eligible(),
            first_bad_member(*graph, feature.node_ids@, 0) == first_bad_member(*graph, feature.node_ids@, k as int),
        decreases feature.node_ids.len() - k,
    {
        let id = feature.node_ids[k].as_str();
        match graph.find_node(id) {
            None => {
                return Err(crate::text::concat_str("unknown node: ", id));
            },
            Some(node) => {
                if !node.source_scope.library_eligible() {
                    return Err(crate::text::concat_str("external or generated core member: ", id));
                }
            },
        }
        k = k + 1;
    }
    let mut k: usize = 0;
    while k < feature.edge_ids.len()
        invariant
            k <= feature.edge_ids@.len(),
            feature.entry_point_node_ids@.len() > 0,
            forall|j: int| 0 <= j < feature.node_ids@.len() ==> graph.has_node(#[trigger] feature.node_ids@[j]@)
                && graph.nodes@[graph.node_index(feature.node_ids@[j]@)].source_scope.spec_library_eligible(),
            forall|j: int| 0 <= j < k ==> edge_known(*graph, #[trigger] feature.edge_ids@[j]@),
            first_bad_member(*graph, feature.node_ids@, 0) is None,
            first_unknown_edge(*graph, feature.edge_ids@, 0) == first_unknown_edge(*graph, feature.edge_ids@, k as int),
        decreases feature.edge_ids.len() - k,
    {
        let id = feature.edge_ids[k].as_str();
        match edge_with_id(graph, id) {
            None => {
                return Err(crate::text::concat_str("unknown edge: ", id));
            },
            Some(e) => {},
        }
        k = k + 1;
    }
    proof {
        assert(k == feature.edge_ids@.len());
        assert forall|j: int| 0 <= j < feature.edge_ids@.len() implies edge_known(*graph, #[trigger] feature.edge_ids@[j]@) by {
            assert(0 <= j < k);
        }
    }
    let mut k: usize = 0;
    while k < feature.entry_point_node_ids.len()
        invariant
            k <= feature.entry_point_node_ids@.len(),
            feature.entry_point_node_ids@.len() > 0,
            forall|j: int| 0 <= j < feature.node_ids@.len() ==> graph.has_node(#[trigger] feature.node_ids@[j]@)
                && graph.nodes@[graph.node_index(feature.node_ids@[j]@)].source_scope.spec_library_eligible(),
            forall|j: int| 0 <= j < feature.edge_ids@.len() ==> edge_known(*graph, #[trigger] feature.edge_ids@[j]@),
            forall|i: int| 0 <= i < k ==> id_listed(feature.node_ids@, #[trigger] feature.entry_point_node_ids@[i]@),
            first_bad_member(*graph, feature.node_ids@, 0) is None,
            first_unknown_edge(*graph, feature.edge_ids@, 0) is None,
        decreases feature.entry_point_node_ids.len() - k,
    {
        if !holds_id(&feature.node_ids, feature.entry_point_node_ids[k].as_str()) {
            return Err(String::from_str("entry point is not a feature member"));
        }
        k = k + 1;
    }
    proof {
        assert forall|i: int| 0 <= i < feature.entry_point_node_ids@.len() implies id_listed(feature.node_ids@, #[trigger] feature.entry_point_node_ids@[i]@) by {
            assert(0 <= i < k);
        }
    }
    Ok(())
}

// ---------------------------------------------------------------------------
// Source groups
// ---------------------------------------------------------------------------

/// The architectural role of a node.
#[derive(Clone, Copy, Debug, PartialEq, Eq, Structural)]
pub enum ArchitectureRole {
    Application,
    EntryPoint,
    Cli,
    Frontend,
    Page,
    Component,
    Api,
    Route,
    Controller,
    Handler,
    Service,
    Provider,
    Model,
    Entity,
    Repository,
    Database,
    Event,
    Listener,
    MessageHandler,
    Queue,
    Template,
    Test,
    Shared,
    Configuration,
    Infrastructure,
    Unknown,
}

/// The group a role's sources are shown under.
pub open spec fn spec_source_group(role: ArchitectureRole) -> Seq<char> {
    match role {
        ArchitectureRole::Application | ArchitectureRole::EntryPoint | ArchitectureRole::Cli => "Entry Points"@,
        ArchitectureRole::Frontend | ArchitectureRole::Page | ArchitectureRole::Component => "Frontend"@,
        ArchitectureRole::Api | ArchitectureRole::Route | ArchitectureRole::Controller | ArchitectureRole::Handler => "API"@,
        ArchitectureRole::Service | ArchitectureRole::Provider => "Application"@,
        ArchitectureRole::Model | ArchitectureRole::Entity => "Domain"@,
        ArchitectureRole::Repository | ArchitectureRole::Database => "Persistence"@,
        ArchitectureRole::Event | ArchitectureRole::Listener | ArchitectureRole::MessageHandler
        | ArchitectureRole::Queue => "Events"@,
        ArchitectureRole::Template => "Templates"@,
        ArchitectureRole::Test => "Tests"@,
        ArchitectureRole::Shared => "Shared"@,
        _ => "Other"@,
    }
}

/// The group under which a role's sources are shown.
pub fn feature_source_group(role: ArchitectureRole) -> (res: &'static str)
    ensures
        res@ == spec_source_group(role),
{
    match role {
        ArchitectureRole::Application | ArchitectureRole::EntryPoint | ArchitectureRole::Cli => "Entry Points",
        ArchitectureRole::Frontend | ArchitectureRole::Page | ArchitectureRole::Component => "Frontend",
        ArchitectureRole::Api | ArchitectureRole::Route | ArchitectureRole::Controller | ArchitectureRole::Handler => "API",
        ArchitectureRole::Service | ArchitectureRole::Provider => "Application",
        ArchitectureRole::Model | ArchitectureRole::Entity => "Domain",
        ArchitectureRole::Repository | ArchitectureRole::Database => "Persistence",
        ArchitectureRole::Event | ArchitectureRole::Listener | ArchitectureRole::MessageHandler
        | ArchitectureRole::Queue => "Events",
        ArchitectureRole::Template => "Templates",
        ArchitectureRole::Test => "Tests",
        ArchitectureRole::Shared => "Shared",
        _ => "Other",
    }
}

} // verus!
