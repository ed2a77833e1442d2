use code_atlas::context::ai_cache_key;
use code_atlas::feature_views::{build_feature_spec, feature_code, feature_graph, feature_source_files, feature_source_search};
use code_atlas::features::{ArchitectureRole, Feature, FeatureStatus};
use code_atlas::findings::SourceText;
use code_atlas::model::{CodeEdge, CodeNode, NodeKind, ProjectGraph, RelationKind, SourceScope};

fn code_node(id: &str, kind: NodeKind, path: &str, lines: (usize, usize), scope: SourceScope) -> CodeNode {
    CodeNode {
        id: id.into(),
        kind,
        name: format!("{id}_fn"),
        path: Some(path.into()),
        language: None,
        start_line: Some(lines.0),
        end_line: Some(lines.1),
        owner: None,
        source_scope: scope,
    }
}

fn graph() -> ProjectGraph {
    ProjectGraph::new(
        ".".into(),
        vec![
            code_node("route", NodeKind::Route, "src/routes.rs", (1, 1), SourceScope::Project),
            code_node("svc", NodeKind::Service, "src/service.rs", (2, 3), SourceScope::Project),
            code_node("other", NodeKind::Function, "src/other.rs", (1, 1), SourceScope::Project),
        ],
        vec![
            CodeEdge { id: "e1".into(), source_id: "route".into(), target_id: "svc".into(), relation: RelationKind::Calls },
            CodeEdge { id: "e2".into(), source_id: "svc".into(), target_id: "other".into(), relation: RelationKind::Calls },
        ],
        vec![],
        vec![],
        vec![],
    )
}

fn feature() -> Feature {
    Feature {
        id: "f".into(),
        project_id: "p".into(),
        name: "Login".into(),
        description: "logs in".into(),
        confidence_permille: 600,
        completeness_permille: 0,
        missing_signals: vec![],
        status: FeatureStatus::Detected,
        entry_point_node_ids: vec!["route".into()],
        node_ids: vec!["route".into(), "svc".into()],
        edge_ids: vec!["e1".into()],
        memberships: vec![],
        routes: vec![],
        pages: vec![],
        services: vec!["svc_fn".into()],
        repositories: vec!["Repo".into()],
        models: vec!["User".into()],
        entities: vec![],
        templates: vec![],
        tests: vec!["login_test".into()],
        external_services: vec!["stripe".into()],
        business_rules: vec![],
        inputs: vec!["credentials".into()],
        outputs: vec![],
        side_effects: vec![],
        security_constraints: vec![],
        source_hash: String::new(),
        ai_provider: None,
        ai_model: None,
        prompt_version: "v".into(),
        created_at: 0,
        updated_at: 0,
    }
}

fn sources() -> Vec<SourceText> {
    vec![
        SourceText { path: "src/routes.rs".into(), text: "route!(login)\n".into() },
        SourceText { path: "src/service.rs".into(), text: "// header\nfn login() {\n  check_password()\n}\n".into() },
    ]
}

fn roles() -> Vec<ArchitectureRole> {
    vec![ArchitectureRole::Route, ArchitectureRole::Service, ArchitectureRole::Shared]
}

#[test]
fn specification_is_drawn_from_members() {
    let spec = build_feature_spec(&graph(), &feature());
    assert_eq!(spec.entry_points, ["route_fn"]);
    assert_eq!(spec.operations, ["svc_fn"]);
    assert_eq!(spec.data, ["User", "Repo"]);
    assert_eq!(spec.dependencies, ["svc_fn", "Repo", "stripe"]);
    assert_eq!(spec.acceptance_criteria, ["Behavior covered by login_test"]);
    assert_eq!(spec.inputs, ["credentials"]);
    assert_eq!(spec.provenance, "deterministic");
}

#[test]
fn feature_graph_keeps_members_and_their_edges() {
    let sub = feature_graph(&graph(), &feature());
    let ids: Vec<&str> = sub.nodes.iter().map(|n| n.id.as_str()).collect();
    assert_eq!(ids, ["route", "svc"]);
    assert_eq!(sub.edges.len(), 1);
    assert_eq!(sub.edges[0].id, "e1");
}

#[test]
fn code_fragments_files_and_search() {
    let code = feature_code(&graph(), &roles(), &feature(), &sources());
    assert_eq!(code.len(), 2);
    assert_eq!(code[0].node_id, "route");
    assert_eq!(code[0].architecture_role, "API");
    assert_eq!(code[1].source, "fn login() {\n  check_password()");
    assert_eq!(code[1].membership_reason, "appartenance déterministe à la Feature");
    let files = feature_source_files(&graph(), &roles(), &feature(), &sources());
    let paths: Vec<(&str, &str)> = files.iter().map(|f| (f.architecture_role.as_str(), f.path.as_str())).collect();
    assert_eq!(paths, [("API", "src/routes.rs"), ("Application", "src/service.rs")]);
    let hits = feature_source_search(&graph(), &roles(), &feature(), &sources(), "  PASSWORD ");
    assert_eq!(hits.len(), 1);
    assert_eq!(hits[0].line, 3);
    assert_eq!(hits[0].preview, "check_password()");
    assert!(feature_source_search(&graph(), &roles(), &feature(), &sources(), "   ").is_empty());
}

#[test]
fn cache_keys_hash_every_part() {
    let a = ai_cache_key("h", "docs", "v1", "openai", "m");
    let b = ai_cache_key("h", "docs", "v1", "openai", "m2");
    assert_eq!(a.len(), 64);
    assert_ne!(a, b);
    assert_ne!(ai_cache_key("ab", "c", "", "", ""), ai_cache_key("a", "bc", "", "", ""));
}
