//! Project documentation: built from the graph, completed by a model, rendered as Markdown.
use vstd::prelude::*;

use crate::findings::unix_now;
use crate::hashing::{sha256_digest, spec_hex, spec_sha256, to_hex};
use crate::model::{copy_opt_string, CodeNode, ProjectGraph, RelationKind};
use crate::text::{
    append_chars, chars_of, insert_sorted_unique, seq_starts_with, spec_join, string_of, strictly_sorted,
    views,
};

verus! {

/// Version of the prompt that completes project documentation.
pub const PROJECT_DOC_PROMPT_VERSION: &'static str = "project-docs-fr-v2";

/// Documentation of a whole project.
#[derive(Clone, Debug)]
pub struct ProjectDocumentation {
    pub project_id: String,
    pub project_name: String,
    pub overview: String,
    pub purpose: String,
    pub architecture: Vec<String>,
    pub applications: Vec<String>,
    pub entry_points: Vec<String>,
    pub features: Vec<String>,
    pub domains: Vec<String>,
    pub main_flows: Vec<String>,
    pub modules: Vec<String>,
    pub apis: Vec<String>,
    pub data_model: Vec<String>,
    pub external_services: Vec<String>,
    pub workers: Vec<String>,
    pub events: Vec<String>,
    pub configuration: Vec<String>,
    pub security_notes: Vec<String>,
    pub development: Vec<String>,
    pub deployment: Vec<String>,
    pub known_limitations: Vec<String>,
    pub content_hash: String,
    pub prompt_version: String,
    pub provider: Option<String>,
    pub model: Option<String>,
    pub cache_hit: bool,
    pub created_at: i64,
    pub updated_at: i64,
}

/// The sections a model writes for a project.
#[derive(Clone, Debug)]
pub struct AiProjectDocumentation {
    pub overview: String,
    pub purpose: String,
    pub architecture: Vec<String>,
    pub applications: Vec<String>,
    pub entry_points: Vec<String>,
    pub features: Vec<String>,
    pub domains: Vec<String>,
    pub main_flows: Vec<String>,
    pub modules: Vec<String>,
    pub apis: Vec<String>,
    pub data_model: Vec<String>,
    pub external_services: Vec<String>,
    pub workers: Vec<String>,
    pub events: Vec<String>,
    pub configuration: Vec<String>,
    pub security_notes: Vec<String>,
    pub development: Vec<String>,
    pub deployment: Vec<String>,
    pub known_limitations: Vec<String>,
}

/// Replaces the written sections of `base` by the model's, and records who wrote them.
/// Identity, name, content hash, prompt version and creation time are kept.
pub fn apply_ai_documentation(
    base: ProjectDocumentation,
    value: AiProjectDocumentation,
    provider: &str,
    model: &str,
) -> (res: ProjectDocumentation)
    ensures
        res.project_id == base.project_id,
        res.project_name == base.project_name,
        res.content_hash == base.content_hash,
        res.prompt_version == base.prompt_version,
        res.created_at == base.created_at,
        res.overview == value.overview,
        res.purpose == value.purpose,
        res.architecture == value.architecture,
        res.applications == value.applications,
        res.entry_points == value.entry_points,
        res.features == value.features,
        res.domains == value.domains,
        res.main_flows == value.main_flows,
        res.modules == value.modules,
        res.apis == value.apis,
        res.data_model == value.data_model,
        res.external_services == value.external_services,
        res.workers == value.workers,
        res.events == value.events,
        res.configuration == value.configuration,
        res.security_notes == value.security_notes,
        res.development == value.development,
        res.deployment == value.deployment,
        res.known_limitations == value.known_limitations,
        res.provider matches Some(p) && p@ == provider@,
        res.model matches Some(m) && m@ == model@,
        !res.cache_hit,
{
    let mut base = base;
    base.overview = value.overview;
    base.purpose = value.purpose;
    base.architecture = value.architecture;
    base.applications = value.applications;
    base.entry_points = value.entry_points;
    base.features = value.features;
    base.domains = value.domains;
    base.main_flows = value.main_flows;
    base.modules = value.modules;
    base.apis = value.apis;
    base.data_model = value.data_model;
    base.external_services = value.external_services;
    base.workers = value.workers;
    base.events = value.events;
    base.configuration = value.configuration;
    base.security_notes = value.security_notes;
    base.development = value.development;
    base.deployment = value.deployment;
    base.known_limitations = value.known_limitations;
    base.provider = Some(String::from_str(provider));
    base.model = Some(String::from_str(model));
    base.cache_hit = false;
    base.updated_at = unix_now();
    base
}

// ---------------------------------------------------------------------------
// Content hash
// ---------------------------------------------------------------------------

/// The bytes hashed for the nodes: each node's id then its kind's name.
pub open spec fn node_bytes(nodes: Seq<CodeNode>) -> Seq<u8>
    decreases nodes.len(),
{
    if nodes.len() == 0 {
        Seq::empty()
    } else {
        node_bytes(nodes.drop_last()) + vstd::utf8::encode_utf8(nodes.last().id@) + vstd::utf8::encode_utf8(
            nodes.last().kind.spec_name(),
        )
    }
}

/// The bytes hashed for the edges: each edge's id.
pub open spec fn edge_bytes(edges: Seq<crate::model::CodeEdge>) -> Seq<u8>
    decreases edges.len(),
{
    if edges.len() == 0 {
        Seq::empty()
    } else {
        edge_bytes(edges.drop_last()) + vstd::utf8::encode_utf8(edges.last().id@)
    }
}

/// The content hash of a graph: SHA-256 over its node ids and kinds and its edge ids.
pub open spec fn spec_content_hash(g: ProjectGraph) -> Seq<char> {
    spec_hex(spec_sha256(node_bytes(g.nodes@) + edge_bytes(g.edges@)))
}

fn push_utf8(bytes: &mut Vec<u8>, s: &str)
    ensures
        final(bytes)@ == old(bytes)@ + vstd::utf8::encode_utf8(s@),
{
    let b = s.as_bytes();
    let ghost before = bytes@;
    let mut j: usize = 0;
    while j < b.len()
        invariant
            j <= b@.len(),
            bytes@ == before + b@.subrange(0, j as int),
        decreases b.len() - j,
    {
        bytes.push(b[j]);
        assert(b@.subrange(0, j + 1) =~= b@.subrange(0, j as int).push(b@[j as int]));
        j = j + 1;
    }
    assert(b@.subrange(0, b@.len() as int) =~= b@);
}

/// The hash that changes whenever the graph's nodes or edges change.
pub fn project_content_hash(graph: &ProjectGraph) -> (res: String)
    ensures
        res@ == spec_content_hash(*graph),
        res@.len() == 64,
{
    let mut bytes: Vec<u8> = Vec::new();
    let mut i: usize = 0;
    while i < graph.nodes.len()
        invariant
            i <= graph.nodes@.len(),
            bytes@ == node_bytes(graph.nodes@.subrange(0, i as int)),
        decreases graph.nodes.len() - i,
    {
        let ghost pre = graph.nodes@.subrange(0, i + 1);
        proof {
            assert(pre.drop_last() =~= graph.nodes@.subrange(0, i as int));
        }
        push_utf8(&mut bytes, graph.nodes[i].id.as_str());
        push_utf8(&mut bytes, graph.nodes[i].kind.as_str());
        i = i + 1;
    }
    let ghost node_part = bytes@;
    let mut k: usize = 0;
    while k < graph.edges.len()
        invariant
            k <= graph.edges@.len(),
            bytes@ == node_part + edge_bytes(graph.edges@.subrange(0, k as int)),
        decreases graph.edges.len() - k,
    {
        let ghost pre = graph.edges@.subrange(0, k + 1);
        proof {
            assert(pre.drop_last() =~= graph.edges@.subrange(0, k as int));
        }
        push_utf8(&mut bytes, graph.edges[k].id.as_str());
        proof {
            assert(bytes@ =~= node_part + edge_bytes(pre));
        }
        k = k + 1;
    }
    proof {
        assert(graph.nodes@.subrange(0, graph.nodes@.len() as int) =~= graph.nodes@);
        assert(graph.edges@.subrange(0, graph.edges@.len() as int) =~= graph.edges@);
    }
    let digest = sha256_digest(bytes.as_slice());
    string_of(&to_hex(digest.as_slice()))
}

/// The same graph always has the same content hash.
pub proof fn lemma_content_hash_deterministic(a: ProjectGraph, b: ProjectGraph)
    requires
        a.nodes@ == b.nodes@,
        a.edges@ == b.edges@,
    ensures
        spec_content_hash(a) == spec_content_hash(b),
{
}

// ---------------------------------------------------------------------------
// Markdown
// ---------------------------------------------------------------------------

/// Items as Markdown bullets, one per line.
pub open spec fn bullets(items: Seq<String>) -> Seq<char> {
    spec_join(items.map_values(|i: String| "- "@ + i@), "\n"@)
}

/// A titled section; an empty one says that nothing was detected.
pub open spec fn spec_section(title: Seq<char>, items: Seq<String>) -> Seq<char> {
    if items.len() == 0 {
        "## "@ + title + "\n\n_Not detected._\n\n"@
    } else {
        "## "@ + title + "\n\n"@ + bullets(items) + "\n\n"@
    }
}

/// The titled sections of a document, in order.
pub open spec fn sections(d: ProjectDocumentation) -> Seq<(Seq<char>, Seq<String>)> {
    seq![
        ("Architecture"@, d.architecture@),
        ("Applications"@, d.applications@),
        ("Entry Points"@, d.entry_points@),
        ("Features"@, d.features@),
        ("Domains"@, d.domains@),
        ("Main Flows"@, d.main_flows@),
        ("Modules"@, d.modules@),
        ("APIs"@, d.apis@),
        ("Data Model"@, d.data_model@),
        ("External Services"@, d.external_services@),
        ("Workers"@, d.workers@),
        ("Events"@, d.events@),
        ("Configuration"@, d.configuration@),
        ("Security Notes"@, d.security_notes@),
        ("Development"@, d.development@),
        ("Deployment"@, d.deployment@),
        ("Known Limitations"@, d.known_limitations@),
    ]
}

/// The rendered sections, concatenated.
pub open spec fn rendered_sections(s: Seq<(Seq<char>, Seq<String>)>) -> Seq<char>
    decreases s.len(),
{
    if s.len() == 0 {
        Seq::empty()
    } else {
        rendered_sections(s.drop_last()) + spec_section(s.last().0, s.last().1)
    }
}

/// The heading of the document: title, overview and purpose.
pub open spec fn markdown_head(d: ProjectDocumentation) -> Seq<char> {
    "# "@ + d.project_name@ + "\n\n"@ + d.overview@ + "\n\n## Purpose\n\n"@ + d.purpose@ + "\n\n"@
}

/// The whole document in Markdown.
pub open spec fn spec_markdown(d: ProjectDocumentation) -> Seq<char> {
    markdown_head(d) + rendered_sections(sections(d))
}

fn push_str(out: &mut Vec<char>, s: &str)
    ensures
        final(out)@ == old(out)@ + s@,
{
    let c = chars_of(s);
    append_chars(out, &c);
}

fn section_text(out: &mut Vec<char>, title: &str, items: &Vec<String>)
    ensures
        final(out)@ == old(out)@ + spec_section(title@, items@),
{
    let ghost start = out@;
    push_str(out, "## ");
    push_str(out, title);
    if items.len() == 0 {
        push_str(out, "\n\n_Not detected._\n\n");
        proof {
            assert(out@ =~= start + spec_section(title@, items@));
        }
    } else {
        push_str(out, "\n\n");
        let ghost mid = out@;
        let ghost lines = items@.map_values(|i: String| "- "@ + i@);
        let mut k: usize = 0;
        while k < items.len()
            invariant
                k <= items@.len(),
                items@.len() > 0,
                lines == items@.map_values(|i: String| "- "@ + i@),
                out@ == mid + spec_join(lines.subrange(0, k as int), "\n"@),
            decreases items.len() - k,
        {
            let ghost pre = lines.subrange(0, k + 1);
            proof {
                assert(pre.drop_last() =~= lines.subrange(0, k as int));
                assert(pre.last() == "- "@ + items@[k as int]@);
            }
            if k > 0 {
                push_str(out, "\n");
            }
            push_str(out, "- ");
            push_str(out, items[k].as_str());
            proof {
                if k == 0 {
                    assert(pre.len() == 1);
                    assert(out@ =~= mid + pre[0]);
                } else {
                    assert(out@ =~= mid + (spec_join(pre.drop_last(), "\n"@) + "\n"@ + pre.last()));
                }
            }
            k = k + 1;
        }
        push_str(out, "\n\n");
        proof {
            assert(lines.subrange(0, items@.len() as int) =~= lines);
            assert(out@ =~= start + spec_section(title@, items@));
        }
    }
}

impl ProjectDocumentation {
    /// The documentation as a Markdown document: the project's name as title, the overview,
    /// the purpose, then every section in a fixed order.
    pub fn markdown(&self) -> (res: String)
        ensures
            res@ == spec_markdown(*self),
            seq_starts_with(res@, "# "@ + self.project_name@ + "\n\n"@),
    {
        let mut out: Vec<char> = Vec::new();
        push_str(&mut out, "# ");
        push_str(&mut out, self.project_name.as_str());
        push_str(&mut out, "\n\n");
        push_str(&mut out, self.overview.as_str());
        push_str(&mut out, "\n\n## Purpose\n\n");
        push_str(&mut out, self.purpose.as_str());
        push_str(&mut out, "\n\n");
        let ghost head = out@;
        proof {
            assert(head =~= markdown_head(*self));
        }
        let ghost all = sections(*self);
        let titles: Vec<&str> = vec![
            "Architecture", "Applications", "Entry Points", "Features", "Domains", "Main Flows", "Modules", "APIs",
            "Data Model", "External Services", "Workers", "Events", "Configuration", "Security Notes", "Development",
            "Deployment", "Known Limitations",
        ];
        let lists: Vec<&Vec<String>> = vec![
            &self.architecture, &self.applications, &self.entry_points, &self.features, &self.domains,
            &self.main_flows, &self.modules, &self.apis, &self.data_model, &self.external_services, &self.workers,
            &self.events, &self.configuration, &self.security_notes, &self.development, &self.deployment,
            &self.known_limitations,
        ];
        proof {
            assert(titles@.len() == all.len() && lists@.len() == all.len());
        }
        let mut k: usize = 0;
        while k < titles.len()
            invariant
                k <= titles@.len(),
                titles@.len() == 17,
                lists@.len() == 17,
                all == sections(*self),
                forall|j: int| 0 <= j < 17 ==> (#[trigger] titles@[j])@ == all[j].0 && lists@[j]@ == all[j].1,
                out@ == head + rendered_sections(all.subrange(0, k as int)),
            decreases titles.len() - k,
        {
            let ghost pre = all.subrange(0, k + 1);
            proof {
                assert(pre.drop_last() =~= all.subrange(0, k as int));
                assert(titles@[k as int]@ == all[k as int].0);
            }
            section_text(&mut out, titles[k], lists[k]);
            proof {
                assert(out@ =~= head + rendered_sections(pre));
            }
            k = k + 1;
        }
        proof {
            assert(all.subrange(0, 17) =~= all);
            assert(out@ =~= spec_markdown(*self));
            let p = "# "@ + self.project_name@ + "\n\n"@;
            assert(out@.subrange(0, p.len() as int) =~= p);
        }
        string_of(&out)
    }
}


// ---------------------------------------------------------------------------
// Documentation built from the graph
// ---------------------------------------------------------------------------

/// The last component of a path, as `std::path::Path::file_name` gives it.
pub uninterp spec fn spec_path_file_name(path: Seq<char>) -> Option<Seq<char>>;

/// Calls `std::path::Path::file_name` (and `OsStr::to_str`, which cannot fail on a name cut
/// from a `&str`): the final component of the path, if it names a file or directory. The
/// answer depends on the path alone.
#[verifier::external_body]
fn path_file_name(path: &str) -> (res: Option<String>)
    ensures
        match res {
            Some(n) => spec_path_file_name(path@) == Some(n@),
            None => spec_path_file_name(path@) is None,
        },
{
    std::path::Path::new(path).file_name().and_then(|name| name.to_str()).map(|name| name.to_string())
}

/// The project's name: the last component of its root, `project` when there is none.
pub open spec fn spec_project_name(root: Seq<char>) -> Seq<char> {
    match spec_path_file_name(root) {
        Some(n) => n,
        None => "project"@,
    }
}

fn project_name_of(root: &str) -> (res: String)
    ensures
        res@ == spec_project_name(root@),
{
    match path_file_name(root) {
        Some(n) => n,
        None => String::from_str("project"),
    }
}

fn cat(a: &str, b: &str) -> (res: String)
    ensures
        res@ == a@ + b@,
{
    crate::text::concat_str(a, b)
}

fn number(n: usize) -> (res: String)
    ensures
        res@ == crate::text::spec_decimal(n as nat),
{
    string_of(&crate::text::decimal(n))
}

/// Labels of the first-party nodes, grouped by kind name; each group sorted, each label once.
struct KindGroups {
    kinds: Vec<String>,
    labels: Vec<Vec<String>>,
}

/// The label of a node: its name, then ` — ` and its path when it has one.
pub open spec fn spec_node_label(node: CodeNode) -> Seq<char> {
    match node.path {
        Some(path) => node.name@ + " — "@ + path@,
        None => node.name@,
    }
}

fn node_label(node: &CodeNode) -> (res: String)
    ensures
        res@ == spec_node_label(*node),
{
    match &node.path {
        Some(path) => {
            let a = cat(node.name.as_str(), " — ");
            cat(a.as_str(), path.as_str())
        },
        None => node.name.clone(),
    }
}

/// The kind names of the first-party nodes among the first `n`, each once, in order of
/// first appearance.
pub open spec fn kinds_of(nodes: Seq<CodeNode>, n: int) -> Seq<Seq<char>>
    decreases n,
{
    if n <= 0 {
        Seq::empty()
    } else {
        let r = kinds_of(nodes, n - 1);
        let node = nodes[n - 1];
        if node.source_scope.spec_library_eligible() && !r.contains(node.kind.spec_name()) {
            r.push(node.kind.spec_name())
        } else {
            r
        }
    }
}

/// `x` is the label of a first-party node of the kind among the first `n`.
pub open spec fn label_of_kind(nodes: Seq<CodeNode>, n: int, kind: Seq<char>, x: Seq<char>) -> bool {
    exists|i: int| 0 <= i < n && (#[trigger] nodes[i]).source_scope.spec_library_eligible() && nodes[i].kind.spec_name() == kind
        && spec_node_label(nodes[i]) == x
}

/// The labels of a kind: the first hundred, in order, of the labels of its first-party
/// nodes, each once.
pub open spec fn kind_labels(nodes: Seq<CodeNode>, kind: Seq<char>, labels: Seq<Seq<char>>) -> bool {
    &&& strictly_sorted(labels)
    &&& labels.len() <= 100
    &&& forall|x: Seq<char>| #[trigger] labels.contains(x) ==> label_of_kind(nodes, nodes.len() as int, kind, x)
    &&& labels.len() < 100 ==> forall|x: Seq<char>| label_of_kind(nodes, nodes.len() as int, kind, x) ==> #[trigger] labels.contains(x)
    &&& labels.len() == 100 ==> forall|x: Seq<char>| label_of_kind(nodes, nodes.len() as int, kind, x) && !#[trigger] labels.contains(x)
        ==> crate::text::seq_less(labels.last(), x)
}

fn group_by_kind(graph: &ProjectGraph) -> (res: KindGroups)
    ensures
        res.kinds@.len() == res.labels@.len(),
        views(res.kinds@) == kinds_of(graph.nodes@, graph.nodes@.len() as int),
        forall|k: int| 0 <= k < res.labels@.len() ==> kind_labels(graph.nodes@, res.kinds@[k]@, views(#[trigger] res.labels@[k]@)),
{
    let ghost nodes = graph.nodes@;
    let mut kinds: Vec<String> = Vec::new();
    let mut labels: Vec<Vec<String>> = Vec::new();
    let mut i: usize = 0;
    assert(views(kinds@) =~= Seq::<Seq<char>>::empty());
    while i < graph.nodes.len()
        invariant
            i <= graph.nodes@.len(),
            nodes == graph.nodes@,
            kinds@.len() == labels@.len(),
            views(kinds@) == kinds_of(nodes, i as int),
            forall|k: int| 0 <= k < labels@.len() ==> strictly_sorted(views(#[trigger] labels@[k]@)),
            forall|k: int, x: Seq<char>| 0 <= k < labels@.len() ==> (#[trigger] views(labels@[k]@).contains(x) <==> label_of_kind(
                nodes,
                i as int,
                kinds@[k]@,
                x,
            )),
        decreases graph.nodes.len() - i,
    {
        let node = &graph.nodes[i];
        let ghost lb = labels@;
        let ghost kb = kinds@;
        if node.source_scope.library_eligible() {
            let kind = node.kind.as_str();
            let label = node_label(node);
            let mut idx: usize = 0;
            while idx < kinds.len() && !crate::model::str_equal(kinds[idx].as_str(), kind)
                invariant
                    idx <= kinds@.len(),
                    forall|q: int| 0 <= q < idx ==> kinds@[q]@ != kind@,
                decreases kinds.len() - idx,
            {
                idx = idx + 1;
            }
            if idx < kinds.len() {
                let mut list = labels.remove(idx);
                insert_sorted_unique(&mut list, label);
                labels.insert(idx, list);
                proof {
                    assert(views(kinds@).contains(kind@)) by {
                        assert(views(kinds@)[idx as int] == kind@);
                    }
                    assert(views(kinds@) == kinds_of(nodes, i + 1));
                    assert forall|k: int| 0 <= k < labels@.len() implies strictly_sorted(views(#[trigger] labels@[k]@)) by {
                        if k != idx {
                            assert(labels@[k] == lb[k]);
                        }
                    }
                    assert forall|k: int, x: Seq<char>| 0 <= k < labels@.len() implies (#[trigger] views(labels@[k]@).contains(x)
                        <==> label_of_kind(nodes, i + 1, kinds@[k]@, x)) by {
                        if k != idx {
                            assert(labels@[k] == lb[k]);
                            if label_of_kind(nodes, i + 1, kinds@[k]@, x) {
                                let j = choose|j: int| 0 <= j < i + 1 && (#[trigger] nodes[j]).source_scope.spec_library_eligible()
                                    && nodes[j].kind.spec_name() == kinds@[k]@ && spec_node_label(nodes[j]) == x;
                                if j == i {
                                    assert(kinds@[k]@ != kind@) by {
                                        lemma_kinds_distinct(nodes, i as int);
                                        lemma_distinct_views(kinds@, k, idx as int, kinds_of(nodes, i as int));
                                    }
                                }
                            }
                        } else {
                            if label_of_kind(nodes, i + 1, kinds@[k]@, x) {
                                let j = choose|j: int| 0 <= j < i + 1 && (#[trigger] nodes[j]).source_scope.spec_library_eligible()
                                    && nodes[j].kind.spec_name() == kinds@[k]@ && spec_node_label(nodes[j]) == x;
                                if j < i {
                                    assert(label_of_kind(nodes, i as int, kinds@[k]@, x));
                                }
                            }
                            if views(lb[k]@).contains(x) {
                                let j = choose|j: int| 0 <= j < i && (#[trigger] nodes[j]).source_scope.spec_library_eligible()
                                    && nodes[j].kind.spec_name() == kinds@[k]@ && spec_node_label(nodes[j]) == x;
                            }
                        }
                    }
                }
            } else {
                let mut list: Vec<String> = Vec::new();
                proof {
                    assert(views(list@) =~= Seq::<Seq<char>>::empty());
                }
                insert_sorted_unique(&mut list, label);
                kinds.push(String::from_str(kind));
                labels.push(list);
                proof {
                    assert(!views(kb).contains(kind@)) by {
                        if views(kb).contains(kind@) {
                            let q = choose|q: int| 0 <= q < views(kb).len() && views(kb)[q] == kind@;
                            assert(kb[q]@ == kind@);
                        }
                    }
                    assert(views(kinds@) =~= views(kb).push(kind@));
                    assert forall|k: int| 0 <= k < labels@.len() implies strictly_sorted(views(#[trigger] labels@[k]@)) by {
                        if k < lb.len() {
                            assert(labels@[k] == lb[k]);
                        }
                    }
                    assert forall|k: int, x: Seq<char>| 0 <= k < labels@.len() implies (#[trigger] views(labels@[k]@).contains(x)
                        <==> label_of_kind(nodes, i + 1, kinds@[k]@, x)) by {
                        if k < lb.len() {
                            assert(labels@[k] == lb[k]);
                            assert(kinds@[k] == kb[k]);
                            if label_of_kind(nodes, i + 1, kinds@[k]@, x) {
                                let j = choose|j: int| 0 <= j < i + 1 && (#[trigger] nodes[j]).source_scope.spec_library_eligible()
                                    && nodes[j].kind.spec_name() == kinds@[k]@ && spec_node_label(nodes[j]) == x;
                                if j == i {
                                    assert(views(kb)[k] == kind@);
                                }
                            }
                        } else {
                            if label_of_kind(nodes, i + 1, kinds@[k]@, x) {
                                let j = choose|j: int| 0 <= j < i + 1 && (#[trigger] nodes[j]).source_scope.spec_library_eligible()
                                    && nodes[j].kind.spec_name() == kinds@[k]@ && spec_node_label(nodes[j]) == x;
                                if j < i {
                                    lemma_kind_listed(nodes, i as int, j);
                                    assert(views(kb).contains(kind@));
                                }
                            }
                        }
                    }
                }
            }
        } else {
            proof {
                assert(views(kinds@) == kinds_of(nodes, i + 1));
                assert forall|k: int, x: Seq<char>| 0 <= k < labels@.len() implies (#[trigger] views(labels@[k]@).contains(x)
                    <==> label_of_kind(nodes, i + 1, kinds@[k]@, x)) by {
                    if label_of_kind(nodes, i + 1, kinds@[k]@, x) {
                        let j = choose|j: int| 0 <= j < i + 1 && (#[trigger] nodes[j]).source_scope.spec_library_eligible()
                            && nodes[j].kind.spec_name() == kinds@[k]@ && spec_node_label(nodes[j]) == x;
                    }
                    if label_of_kind(nodes, i as int, kinds@[k]@, x) {
                        let j = choose|j: int| 0 <= j < i && (#[trigger] nodes[j]).source_scope.spec_library_eligible()
                            && nodes[j].kind.spec_name() == kinds@[k]@ && spec_node_label(nodes[j]) == x;
                    }
                }
            }
        }
        i = i + 1;
    }
    let ghost full = labels@;
    let mut k: usize = 0;
    while k < labels.len()
        invariant
            k <= labels@.len(),
            kinds@.len() == labels@.len(),
            full.len() == labels@.len(),
            views(kinds@) == kinds_of(nodes, nodes.len() as int),
            nodes == graph.nodes@,
            forall|q: int| 0 <= q < full.len() ==> strictly_sorted(views(#[trigger] full[q]@)),
            forall|q: int, x: Seq<char>| 0 <= q < full.len() ==> (#[trigger] views(full[q]@).contains(x) <==> label_of_kind(
                nodes,
                nodes.len() as int,
                kinds@[q]@,
                x,
            )),
            forall|q: int| k <= q < labels@.len() ==> #[trigger] labels@[q] == full[q],
            forall|q: int| 0 <= q < k ==> kind_labels(nodes, kinds@[q]@, views(#[trigger] labels@[q]@)),
        decreases labels.len() - k,
    {
        let ghost lb = labels@;
        let mut list = labels.remove(k);
        let ghost whole = views(list@);
        list.truncate(100);
        proof {
            let t = views(list@);
            assert(whole == views(full[k as int]@));
            assert(t =~= if whole.len() <= 100 { whole } else { whole.subrange(0, 100) });
            assert forall|x: Seq<char>| #[trigger] t.contains(x) implies label_of_kind(nodes, nodes.len() as int, kinds@[k as int]@, x) by {
                let j = choose|j: int| 0 <= j < t.len() && t[j] == x;
                assert(whole[j] == x);
                assert(views(full[k as int]@).contains(x));
            }
            if t.len() < 100 {
                assert(t == whole);
                assert forall|x: Seq<char>| label_of_kind(nodes, nodes.len() as int, kinds@[k as int]@, x) implies #[trigger] t.contains(x) by {
                    assert(views(full[k as int]@).contains(x));
                }
            }
            if t.len() == 100 {
                assert forall|x: Seq<char>| label_of_kind(nodes, nodes.len() as int, kinds@[k as int]@, x) && !#[trigger] t.contains(x)
                    implies crate::text::seq_less(t.last(), x) by {
                    assert(views(full[k as int]@).contains(x));
                    let j = choose|j: int| 0 <= j < whole.len() && whole[j] == x;
                    if j < 100 {
                        assert(t[j] == x);
                    } else {
                        assert(t.last() == whole[99]);
                    }
                }
            }
            assert(strictly_sorted(t));
        }
        labels.insert(k, list);
        proof {
            assert forall|q: int| 0 <= q < k + 1 implies kind_labels(nodes, kinds@[q]@, views(#[trigger] labels@[q]@)) by {
                if q < k {
                    assert(labels@[q] == lb[q]);
                }
            }
            assert forall|q: int| k + 1 <= q < labels@.len() implies #[trigger] labels@[q] == full[q] by {
                assert(labels@[q] == lb[q]);
            }
        }
        k = k + 1;
    }
    KindGroups { kinds, labels }
}

/// The kind names listed so far are distinct.
proof fn lemma_distinct_views(kinds: Seq<String>, a: int, b: int, listed: Seq<Seq<char>>)
    requires
        views(kinds) == listed,
        0 <= a < kinds.len(),
        0 <= b < kinds.len(),
        a != b,
        no_repeats(listed),
    ensures
        kinds[a]@ != kinds[b]@,
{
    assert(listed[a] == kinds[a]@ && listed[b] == kinds[b]@);
}

/// No value occurs twice.
pub open spec fn no_repeats(s: Seq<Seq<char>>) -> bool {
    forall|a: int, b: int| 0 <= a < b < s.len() ==> s[a] != s[b]
}

/// The kinds listed hold each name once, and the name of every first-party node seen.
proof fn lemma_kind_listed(nodes: Seq<CodeNode>, n: int, j: int)
    requires
        0 <= j < n,
        nodes[j].source_scope.spec_library_eligible(),
    ensures
        kinds_of(nodes, n).contains(nodes[j].kind.spec_name()),
    decreases n,
{
    if n > 0 {
        let r = kinds_of(nodes, n - 1);
        if j < n - 1 {
            lemma_kind_listed(nodes, n - 1, j);
            let q = choose|q: int| 0 <= q < r.len() && r[q] == nodes[j].kind.spec_name();
            if !(nodes[n - 1].source_scope.spec_library_eligible() && !r.contains(nodes[n - 1].kind.spec_name())) {
            } else {
                assert(r.push(nodes[n - 1].kind.spec_name())[q] == r[q]);
            }
        } else {
            if !r.contains(nodes[j].kind.spec_name()) {
                assert(r.push(nodes[j].kind.spec_name())[r.len() as int] == nodes[j].kind.spec_name());
            }
        }
    }
}

/// The kinds listed hold each name once.
proof fn lemma_kinds_distinct(nodes: Seq<CodeNode>, n: int)
    ensures
        no_repeats(kinds_of(nodes, n)),
    decreases n,
{
    if n > 0 {
        lemma_kinds_distinct(nodes, n - 1);
        let r = kinds_of(nodes, n - 1);
        let node = nodes[n - 1];
        if node.source_scope.spec_library_eligible() && !r.contains(node.kind.spec_name()) {
            let t = r.push(node.kind.spec_name());
            assert forall|a: int, b: int| 0 <= a < b < t.len() implies t[a] != t[b] by {
                if b == r.len() {
                    assert(t[a] == r[a]);
                }
            }
        }
    }
}

/// Position of the first kind named `kind`, from `i` on.
pub open spec fn kind_position(kinds: Seq<String>, kind: Seq<char>, i: int) -> Option<int>
    decreases kinds.len() - i,
{
    if i < 0 || i >= kinds.len() {
        None
    } else if kinds[i]@ == kind {
        Some(i)
    } else {
        kind_position(kinds, kind, i + 1)
    }
}

/// The labels of the first `w` wanted kinds, kind after kind.
pub open spec fn wanted_labels(kinds: Seq<String>, labels: Seq<Vec<String>>, wanted: Seq<&str>, w: int) -> Seq<String>
    decreases w,
{
    if w <= 0 {
        Seq::empty()
    } else {
        wanted_labels(kinds, labels, wanted, w - 1) + match kind_position(kinds, wanted[w - 1]@, 0) {
            Some(i) => labels[i]@,
            None => Seq::empty(),
        }
    }
}

/// At most the first `n` elements.
pub open spec fn at_most<T>(s: Seq<T>, n: int) -> Seq<T> {
    if s.len() <= n { s } else { s.subrange(0, n) }
}

/// The labels of the listed kinds, kind after kind, at most 150.
fn take_kinds(groups: &KindGroups, wanted: &Vec<&str>) -> (res: Vec<String>)
    requires
        groups.kinds@.len() == groups.labels@.len(),
    ensures
        res@.len() <= 150,
        res@ == at_most(wanted_labels(groups.kinds@, groups.labels@, wanted@, wanted@.len() as int), 150),
{
    let mut out: Vec<String> = Vec::new();
    let mut w: usize = 0;
    while w < wanted.len()
        invariant
            w <= wanted@.len(),
            out@.len() <= 150,
            groups.kinds@.len() == groups.labels@.len(),
            out@ == at_most(wanted_labels(groups.kinds@, groups.labels@, wanted@, w as int), 150),
        decreases wanted.len() - w,
    {
        let ghost base = wanted_labels(groups.kinds@, groups.labels@, wanted@, w as int);
        let kind = wanted[w];
        let mut idx: usize = 0;
        while idx < groups.kinds.len() && !crate::model::str_equal(groups.kinds[idx].as_str(), kind)
            invariant
                idx <= groups.kinds@.len(),
                kind_position(groups.kinds@, kind@, 0) == kind_position(groups.kinds@, kind@, idx as int),
            decreases groups.kinds.len() - idx,
        {
            idx = idx + 1;
        }
        if idx < groups.kinds.len() {
            let list = &groups.labels[idx];
            let mut j: usize = 0;
            while j < list.len() && out.len() < 150
                invariant
                    j <= list@.len(),
                    out@.len() <= 150,
                    out@ == at_most(base + list@.subrange(0, j as int), 150),
                    out@.len() < 150 ==> out@ == base + list@.subrange(0, j as int),
                decreases list.len() - j,
            {
                out.push(list[j].clone());
                assert(base + list@.subrange(0, j + 1) =~= (base + list@.subrange(0, j as int)).push(list@[j as int]));
                j = j + 1;
            }
            proof {
                let full = base + list@;
                if j == list@.len() {
                    assert(list@.subrange(0, j as int) =~= list@);
                } else {
                    assert(out@.len() == 150);
                    assert(full.subrange(0, 150) =~= (base + list@.subrange(0, j as int)).subrange(0, 150));
                }
            }
        } else {
            assert(base + Seq::<String>::empty() =~= base);
        }
        proof {
            if at_most(base, 150).len() == 150 && base.len() > 150 {
            }
        }
        w = w + 1;
    }
    out
}

/// The items joined with `sep`.
fn join_with(items: &Vec<String>, sep: &str) -> (res: String)
    ensures
        res@ == crate::text::spec_join(views(items@), sep@),
{
    let mut out: Vec<char> = Vec::new();
    let mut k: usize = 0;
    assert(views(items@).subrange(0, 0) =~= Seq::<Seq<char>>::empty());
    while k < items.len()
        invariant
            k <= items@.len(),
            out@ == crate::text::spec_join(views(items@).subrange(0, k as int), sep@),
        decreases items.len() - k,
    {
        let ghost before = views(items@).subrange(0, k as int);
        let ghost after = views(items@).subrange(0, k + 1);
        if k > 0 {
            push_str(&mut out, sep);
        }
        push_str(&mut out, items[k].as_str());
        proof {
            assert(after.drop_last() =~= before);
            assert(after.last() == items@[k as int]@);
            if k == 0 {
                assert(after.len() == 1);
                assert(out@ =~= after[0]);
            } else {
                assert(out@ =~= crate::text::spec_join(before, sep@) + sep@ + after.last());
            }
        }
        k = k + 1;
    }
    assert(views(items@).subrange(0, items@.len() as int) =~= views(items@));
    string_of(&out)
}

fn single(s: String) -> (res: Vec<String>)
    ensures
        res@ == seq![s],
{
    let mut v: Vec<String> = Vec::new();
    v.push(s);
    v
}

/// The flow an edge shows, when it is not containment or declaration and both its ends are
/// nodes of the graph: `source —relation→ target`.
pub open spec fn edge_flow(g: ProjectGraph, e: int) -> Option<Seq<char>> {
    let edge = g.edges@[e];
    if edge.relation != RelationKind::Contains && edge.relation != RelationKind::Declares && g.has_node(edge.source_id@)
        && g.has_node(edge.target_id@) {
        Some(g.nodes@[g.node_index(edge.source_id@)].name@ + " —"@ + edge.relation.spec_name() + "→ "@
            + g.nodes@[g.node_index(edge.target_id@)].name@)
    } else {
        None
    }
}

/// The flows the first `n` edges show, in order.
pub open spec fn flows_of(g: ProjectGraph, n: int) -> Seq<Seq<char>>
    decreases n,
{
    if n <= 0 {
        Seq::empty()
    } else {
        match edge_flow(g, n - 1) {
            Some(f) => flows_of(g, n - 1).push(f),
            None => flows_of(g, n - 1),
        }
    }
}

/// Some edge among the first `n`, neither a containment nor a declaration, shows the flow.
pub open spec fn shown_by_edge(g: ProjectGraph, n: int, f: Seq<char>) -> bool {
    exists|e: int| 0 <= e < n && edge_flow(g, e) == Some(f) && g.edges@[e].relation != RelationKind::Contains
        && g.edges@[e].relation != RelationKind::Declares
}

/// Every main flow shows an edge that is neither a containment nor a declaration.
pub proof fn law_flows_skip_structural_edges(g: ProjectGraph, n: int)
    requires
        0 <= n <= g.edges@.len(),
    ensures
        forall|k: int| 0 <= k < flows_of(g, n).len() ==> shown_by_edge(g, n, #[trigger] flows_of(g, n)[k]),
    decreases n,
{
    if n > 0 {
        law_flows_skip_structural_edges(g, n - 1);
        let before = flows_of(g, n - 1);
        assert forall|k: int| 0 <= k < flows_of(g, n).len() implies shown_by_edge(g, n, #[trigger] flows_of(g, n)[k]) by {
            if k < before.len() {
                assert(flows_of(g, n)[k] == before[k]);
                assert(shown_by_edge(g, n - 1, before[k]));
                let e = choose|e: int| 0 <= e < n - 1 && edge_flow(g, e) == Some(before[k])
                    && g.edges@[e].relation != RelationKind::Contains && g.edges@[e].relation != RelationKind::Declares;
                assert(edge_flow(g, e) == Some(flows_of(g, n)[k]));
            } else {
                assert(edge_flow(g, n - 1) == Some(flows_of(g, n)[k]));
            }
        }
    } else {
        assert(flows_of(g, n) =~= Seq::<Seq<char>>::empty());
    }
}

/// The flows of fewer edges begin the flows of more.
proof fn lemma_flows_prefix(g: ProjectGraph, a: int, b: int)
    requires
        0 <= a <= b,
    ensures
        flows_of(g, a).len() <= flows_of(g, b).len(),
        flows_of(g, b).subrange(0, flows_of(g, a).len() as int) == flows_of(g, a),
    decreases b - a,
{
    if a < b {
        lemma_flows_prefix(g, a, b - 1);
        let x = flows_of(g, a);
        let y = flows_of(g, b - 1);
        assert(flows_of(g, b).subrange(0, x.len() as int) =~= y.subrange(0, x.len() as int));
    } else {
        assert(flows_of(g, b).subrange(0, flows_of(g, a).len() as int) =~= flows_of(g, a));
    }
}

/// The observed relations between named nodes, other than containment and declaration.
fn main_flows(graph: &ProjectGraph) -> (res: Vec<String>)
    ensures
        res@.len() <= 150,
        views(res@) == at_most(flows_of(*graph, graph.edges@.len() as int), 150),
{
    let mut out: Vec<String> = Vec::new();
    let mut e: usize = 0;
    assert(views(out@) =~= Seq::<Seq<char>>::empty());
    while e < graph.edges.len() && out.len() < 150
        invariant
            e <= graph.edges@.len(),
            out@.len() <= 150,
            views(out@) == flows_of(*graph, e as int),
        decreases graph.edges.len() - e,
    {
        let edge = &graph.edges[e];
        let ghost before = views(out@);
        if edge.relation != RelationKind::Contains && edge.relation != RelationKind::Declares {
            match (graph.find_node(edge.source_id.as_str()), graph.find_node(edge.target_id.as_str())) {
                (Some(source), Some(target)) => {
                    let a = cat(source.name.as_str(), " —");
                    let b = cat(a.as_str(), edge.relation.as_str());
                    let c = cat(b.as_str(), "→ ");
                    out.push(cat(c.as_str(), target.name.as_str()));
                    assert(views(out@) =~= before.push(out@.last()@));
                },
                _ => {},
            }
        }
        e = e + 1;
    }
    proof {
        lemma_flows_prefix(*graph, e as int, graph.edges@.len() as int);
        let all = flows_of(*graph, graph.edges@.len() as int);
        if e < graph.edges@.len() {
            assert(out@.len() == 150);
            assert(views(out@).len() == 150);
        }
    }
    out
}

/// How many of the first `n` nodes are first-party code (a library-eligible source scope),
/// counting only files when `files_only`.
pub open spec fn first_party_count(nodes: Seq<CodeNode>, n: int, files_only: bool) -> nat
    decreases n,
{
    if n <= 0 {
        0
    } else {
        first_party_count(nodes, n - 1, files_only) + if nodes[n - 1].source_scope.spec_library_eligible()
            && (!files_only || nodes[n - 1].kind == crate::model::NodeKind::File) {
            1nat
        } else {
            0nat
        }
    }
}

/// The first-party count grows by one with each first-party node and ignores the others: a
/// node of an outside dependency or of generated code never counts.
pub proof fn law_first_party_count_ignores_outside_nodes(nodes: Seq<CodeNode>, node: CodeNode, files_only: bool)
    ensures
        first_party_count(nodes.push(node), nodes.len() + 1int, files_only) == first_party_count(nodes, nodes.len() as int, files_only)
            + if node.source_scope.spec_library_eligible() && (!files_only || node.kind == crate::model::NodeKind::File) {
            1nat
        } else {
            0nat
        },
{
    lemma_first_party_prefix(nodes.push(node), nodes, nodes.len() as int, files_only);
}

/// The count over the first `n` nodes depends on those nodes only.
proof fn lemma_first_party_prefix(a: Seq<CodeNode>, b: Seq<CodeNode>, n: int, files_only: bool)
    requires
        0 <= n <= a.len(),
        n <= b.len(),
        forall|k: int| 0 <= k < n ==> a[k] == b[k],
    ensures
        first_party_count(a, n, files_only) == first_party_count(b, n, files_only),
    decreases n,
{
    if n > 0 {
        lemma_first_party_prefix(a, b, n - 1, files_only);
    }
}

/// The first-party count never exceeds the number of nodes, and equals it when every node is
/// first-party code.
pub proof fn law_first_party_count_bounds(nodes: Seq<CodeNode>, n: int)
    requires
        0 <= n <= nodes.len(),
    ensures
        first_party_count(nodes, n, false) <= n,
        (forall|k: int| 0 <= k < n ==> (#[trigger] nodes[k]).source_scope.spec_library_eligible())
            ==> first_party_count(nodes, n, false) == n,
        (forall|k: int| 0 <= k < n ==> !(#[trigger] nodes[k]).source_scope.spec_library_eligible())
            ==> first_party_count(nodes, n, false) == 0,
    decreases n,
{
    if n > 0 {
        law_first_party_count_bounds(nodes, n - 1);
    }
}

/// Documentation derived from the graph alone, before any model writes.
pub fn build_project_documentation(project_id: &str, graph: &ProjectGraph) -> (res: ProjectDocumentation)
    ensures
        res.project_id@ == project_id@,
        res.project_name@ == spec_project_name(graph.root@),
        res.content_hash@ == spec_content_hash(*graph),
        res.prompt_version@ == PROJECT_DOC_PROMPT_VERSION@,
        res.provider is None,
        res.model is None,
        !res.cache_hit,
        res.created_at == res.updated_at,
        res.features@.len() == 0,
        res.main_flows@.len() <= 150,
        res.security_notes@.len() == 1,
        res.known_limitations@.len() == 1,
        res.known_limitations@[0]@ == crate::text::spec_decimal(graph.unresolved_calls@.len() as nat)
            + " référence(s) d’appel restent non résolues ; les analyses d’impact correspondantes peuvent être incomplètes."@,
        res.architecture@.len() >= 3,
        res.architecture@[0]@ == crate::text::spec_decimal(first_party_count(graph.nodes@, graph.nodes@.len() as int, false))
            + " nœuds de code propriétaire répartis dans "@ + crate::text::spec_decimal(
            first_party_count(graph.nodes@, graph.nodes@.len() as int, true),
        ) + " fichiers."@,
        exists|languages: nat| res.overview@ == spec_project_name(graph.root@) + " contient "@ + crate::text::spec_decimal(
            first_party_count(graph.nodes@, graph.nodes@.len() as int, false),
        ) + " nœuds de code propriétaire et "@ + crate::text::spec_decimal(graph.edges@.len() as nat)
            + " relations résolues dans "@ + crate::text::spec_decimal(languages) + " langage(s)."@,
{
    let groups = group_by_kind(graph);
    let project_name = project_name_of(graph.root.as_str());
    let now = unix_now();
    let mut languages: Vec<String> = Vec::new();
    proof {
        assert(views(languages@) =~= Seq::<Seq<char>>::empty());
    }
    let mut first_party_nodes: usize = 0;
    let mut first_party_files: usize = 0;
    let mut i: usize = 0;
    while i < graph.nodes.len()
        invariant
            i <= graph.nodes@.len(),
            strictly_sorted(views(languages@)),
            first_party_nodes <= i,
            first_party_files <= i,
            first_party_nodes == first_party_count(graph.nodes@, i as int, false),
            first_party_files == first_party_count(graph.nodes@, i as int, true),
        decreases graph.nodes.len() - i,
    {
        let node = &graph.nodes[i];
        match node.language {
            Some(language) => {
                insert_sorted_unique(&mut languages, String::from_str(language.as_str()));
            },
            None => {},
        }
        if node.source_scope.library_eligible() {
            first_party_nodes = first_party_nodes + 1;
            if node.kind == crate::model::NodeKind::File {
                first_party_files = first_party_files + 1;
            }
        }
        i = i + 1;
    }
    let edges = number(graph.edges.len());
    let unresolved = number(graph.unresolved_calls.len());
    let mut architecture: Vec<String> = Vec::new();
    let a0 = cat(number(first_party_nodes).as_str(), " nœuds de code propriétaire répartis dans ");
    let a1 = cat(a0.as_str(), number(first_party_files).as_str());
    architecture.push(cat(a1.as_str(), " fichiers."));
    let b0 = cat(edges.as_str(), " relations résolues et ");
    let b1 = cat(b0.as_str(), unresolved.as_str());
    architecture.push(cat(b1.as_str(), " appels encore non résolus."));
    let l0 = cat("Langages détectés : ", join_with(&languages, ", ").as_str());
    architecture.push(cat(l0.as_str(), "."));
    let mut zones = take_kinds(&groups, &vec!["ArchitectureZone", "ArchitectureGroup", "Application", "Workspace", "Package", "Crate"]);
    architecture.append(&mut zones);
    let o0 = cat(project_name.as_str(), " contient ");
    let o1 = cat(o0.as_str(), number(first_party_nodes).as_str());
    let o2 = cat(o1.as_str(), " nœuds de code propriétaire et ");
    let o3 = cat(o2.as_str(), edges.as_str());
    let o4 = cat(o3.as_str(), " relations résolues dans ");
    let o5 = cat(o4.as_str(), number(languages.len()).as_str());
    let overview = cat(o5.as_str(), " langage(s).");
    assert(overview@ =~= spec_project_name(graph.root@) + " contient "@ + crate::text::spec_decimal(first_party_nodes as nat)
        + " nœuds de code propriétaire et "@ + crate::text::spec_decimal(graph.edges@.len() as nat)
        + " relations résolues dans "@ + crate::text::spec_decimal(languages@.len() as nat) + " langage(s)."@);
    assert(architecture@[0]@ =~= crate::text::spec_decimal(first_party_nodes as nat) + " nœuds de code propriétaire répartis dans "@
        + crate::text::spec_decimal(first_party_files as nat) + " fichiers."@);
    let mut development: Vec<String> = Vec::new();
    let mut k: usize = 0;
    while k < languages.len()
        invariant
            k <= languages@.len(),
        decreases languages.len() - k,
    {
        let d0 = cat("Le projet contient du code ", languages[k].as_str());
        development.push(cat(d0.as_str(), "."));
        k = k + 1;
    }
    ProjectDocumentation {
        project_id: String::from_str(project_id),
        project_name,
        overview,
        purpose: String::from_str(
            "Documentation construite à partir du graphe persistant, des points d’entrée, des flux, des Features et du code source. Les intentions métier non explicites dans le code sont signalées comme telles.",
        ),
        architecture,
        applications: take_kinds(&groups, &vec!["Project", "Workspace", "Package", "Crate"]),
        entry_points: take_kinds(&groups, &vec!["EntryPoint", "Page", "Route", "ApiEndpoint", "Cli", "Command"]),
        features: Vec::new(),
        domains: take_kinds(&groups, &vec!["Module", "Service", "Controller", "Handler"]),
        main_flows: main_flows(graph),
        modules: take_kinds(&groups, &vec!["Module", "File", "Service"]),
        apis: take_kinds(&groups, &vec!["Route", "ApiEndpoint", "Controller", "Handler"]),
        data_model: take_kinds(&groups, &vec!["Model", "Entity", "Database", "DatabaseTable", "Repository"]),
        external_services: take_kinds(&groups, &vec!["ExternalService"]),
        workers: take_kinds(&groups, &vec!["Worker", "Job", "Queue"]),
        events: take_kinds(&groups, &vec!["Event", "Listener", "EventListener", "EventSubscriber", "MessageHandler"]),
        configuration: take_kinds(&groups, &vec!["Config", "Environment"]),
        security_notes: single(String::from_str(
            "Examiner les constats de sécurité déterministes et leurs preuves avant tout déploiement.",
        )),
        development,
        deployment: take_kinds(&groups, &vec!["Infrastructure"]),
        known_limitations: single(cat(
            unresolved.as_str(),
            " référence(s) d’appel restent non résolues ; les analyses d’impact correspondantes peuvent être incomplètes.",
        )),
        content_hash: project_content_hash(graph),
        prompt_version: String::from_str(PROJECT_DOC_PROMPT_VERSION),
        provider: None,
        model: None,
        cache_hit: false,
        created_at: now,
        updated_at: now,
    }
}

/// The rendered documentation opens with the project's name as its title.
pub proof fn lemma_markdown_title(d: ProjectDocumentation)
    ensures
        seq_starts_with(spec_markdown(d), "# "@ + d.project_name@ + "\n\n"@),
{
    let p = "# "@ + d.project_name@ + "\n\n"@;
    assert(spec_markdown(d).subrange(0, p.len() as int) =~= p);
}

} // verus!
