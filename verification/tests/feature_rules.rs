use code_atlas::features::{feature_relation_cost, feature_root, feature_source_group, validate_feature, ArchitectureRole, Feature, FeatureStatus};
use code_atlas::feature_detection::{detect_feature_candidates, refresh_feature_completeness, route_family};
use code_atlas::model::{CodeEdge, CallReference, CodeNode, NodeKind, ProjectGraph, RelationKind, SourceScope};

fn code_node(id: &str, kind: NodeKind, name: &str, path: &str, scope: SourceScope) -> CodeNode {
    CodeNode {
        id: id.into(),
        kind,
        name: name.into(),
        path: Some(path.into()),
        language: None,
        start_line: None,
        end_line: None,
        owner: None,
        source_scope: scope,
    }
}

fn feature(entry: &[&str], members: &[&str]) -> Feature {
    Feature {
        id: "f".into(),
        project_id: "p".into(),
        name: "Login".into(),
        description: String::new(),
        confidence_permille: 500,
        completeness_permille: 500,
        missing_signals: vec![],
        status: FeatureStatus::Detected,
        entry_point_node_ids: entry.iter().map(|s| s.to_string()).collect(),
        node_ids: members.iter().map(|s| s.to_string()).collect(),
        edge_ids: vec![],
        memberships: vec![],
        routes: vec![],
        pages: vec![],
        services: vec![],
        repositories: vec![],
        models: vec![],
        entities: vec![],
        templates: vec![],
        tests: vec![],
        external_services: vec![],
        business_rules: vec![],
        inputs: vec![],
        outputs: vec![],
        side_effects: vec![],
        security_constraints: vec![],
        source_hash: String::new(),
        ai_provider: None,
        ai_model: None,
        prompt_version: "deterministic-v1".into(),
        created_at: 0,
        updated_at: 0,
    }
}

fn login_graph() -> ProjectGraph {
    ProjectGraph::new(
        ".".into(),
        vec![
            code_node("route", NodeKind::Route, "login", "src/login.rs", SourceScope::Project),
            code_node("dep", NodeKind::Service, "dep", "vendor/dep.rs", SourceScope::ExternalDependency),
        ],
        vec![],
        vec![],
        vec![],
        vec![],
    )
}

#[test]
fn feature_validation_rejects_external_members() {
    let graph = login_graph();
    let roles = vec![ArchitectureRole::Route, ArchitectureRole::Service];
    let domains = vec!["auth".to_string(), "dependency".to_string()];
    let mut feature = detect_feature_candidates("p", &graph, &roles, &domains).remove(0);
    assert!(validate_feature(&graph, &feature).is_ok());
    feature.node_ids.push("dep".into());
    assert!(validate_feature(&graph, &feature).is_err());
}

fn edge(id: &str, source: &str, target: &str, relation: RelationKind) -> CodeEdge {
    CodeEdge { id: id.into(), source_id: source.into(), target_id: target.into(), relation }
}

#[test]
fn candidates_grow_along_relations_and_pull_covering_tests() {
    let graph = ProjectGraph::new(
        ".".into(),
        vec![
            code_node("route", NodeKind::Route, "login_route", "src/login.rs", SourceScope::Project),
            code_node("handler", NodeKind::Handler, "LoginHandler", "src/login.rs", SourceScope::Project),
            code_node("repo", NodeKind::Repository, "UserRepository", "src/users.rs", SourceScope::Project),
            code_node("stripe", NodeKind::ExternalService, "stripe", "vendor/stripe.rs", SourceScope::ExternalDependency),
            code_node("test", NodeKind::Function, "login_works", "tests/login_test.rs", SourceScope::Project),
            code_node("other", NodeKind::Service, "Unrelated", "src/other.rs", SourceScope::Project),
        ],
        vec![
            edge("e1", "route", "handler", RelationKind::HandledBy),
            edge("e2", "handler", "repo", RelationKind::Calls),
            edge("e3", "handler", "stripe", RelationKind::Calls),
            edge("e4", "test", "handler", RelationKind::Calls),
            edge("e5", "repo", "other", RelationKind::Contains),
        ],
        vec![],
        vec![],
        vec![CallReference { caller_id: "handler".into(), path: "src/login.rs".into(), target_name: "x".into(), qualifier: None, line: 3 }],
    );
    let roles = vec![
        ArchitectureRole::Route,
        ArchitectureRole::Handler,
        ArchitectureRole::Repository,
        ArchitectureRole::Unknown,
        ArchitectureRole::Test,
        ArchitectureRole::Service,
    ];
    let domains = vec!["auth".to_string(); 6];
    let features = detect_feature_candidates("p", &graph, &roles, &domains);
    assert_eq!(features.len(), 1);
    let f = &features[0];
    assert_eq!(f.entry_point_node_ids, ["route"]);
    assert_eq!(f.node_ids, ["handler", "repo", "route", "test"]);
    assert_eq!(f.edge_ids, ["e1", "e2", "e4"]);
    assert_eq!(f.external_services, ["stripe"]);
    assert_eq!(f.routes, ["login_route"]);
    assert_eq!(f.services, ["LoginHandler"]);
    assert_eq!(f.repositories, ["UserRepository"]);
    assert_eq!(f.tests, ["login_works"]);
    assert_eq!(f.name, "Login Route");
    assert_eq!(f.confidence_permille, 590);
    assert_eq!(f.prompt_version, "feature-deterministic-v2");
    assert!(f.id.starts_with("feature:") && f.id.len() == 32);
    assert!(f.missing_signals.iter().any(|m| m == "1 référence(s) interne(s) non résolue(s)"));
    assert!(validate_feature(&graph, f).is_ok());
}

#[test]
fn completeness_counts_signals() {
    let graph = login_graph();
    let roles = vec![ArchitectureRole::Route, ArchitectureRole::Service];
    let mut f = feature(&["route"], &["route"]);
    refresh_feature_completeness(&graph, &roles, &mut f);
    // entry point (150) + one layer (40)
    assert_eq!(f.completeness_permille, 190);
    assert_eq!(
        f.missing_signals,
        [
            "un seul nœud first-party relié",
            "une seule couche architecturale représentée",
            "aucune route associée",
            "aucun service applicatif détecté",
            "aucune persistance détectée",
            "aucun test relié",
        ]
    );
}

#[test]
fn route_families_group_tool_routes() {
    let mut f = feature(&["route"], &["route"]);
    f.routes = vec!["GET /api/mcp/tools".into()];
    assert_eq!(route_family(&f), Some(("mcp", "Serveur MCP")));
    f.routes = vec!["POST /api/projects/{id}/features/{fid}/port/apply".into()];
    assert_eq!(route_family(&f), Some(("feature-porting", "Portage de Feature")));
    f.routes = vec!["GET /health".into()];
    assert_eq!(route_family(&f), None);
    f.routes = vec![];
    assert_eq!(route_family(&f), None);
}

#[test]
fn feature_validation_errors() {
    let graph = login_graph();
    assert!(validate_feature(&graph, &feature(&[], &["route"])).is_err());
    assert!(validate_feature(&graph, &feature(&["route"], &["route", "ghost"])).is_err());
    assert!(validate_feature(&graph, &feature(&["route"], &[])).is_err());
    let mut with_edge = feature(&["route"], &["route"]);
    with_edge.edge_ids.push("missing-edge".into());
    assert!(validate_feature(&graph, &with_edge).is_err());
}

#[test]
fn feature_roots_and_costs() {
    assert!(feature_root(NodeKind::Route));
    assert!(!feature_root(NodeKind::Service));
    assert_eq!(feature_relation_cost(RelationKind::Calls), Some(8));
    assert_eq!(feature_relation_cost(RelationKind::Imports), Some(28));
    assert_eq!(feature_relation_cost(RelationKind::Contains), None);
    assert_eq!(feature_source_group(ArchitectureRole::Repository), "Persistence");
    assert_eq!(feature_source_group(ArchitectureRole::Unknown), "Other");
}
