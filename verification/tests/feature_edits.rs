use code_atlas::dto::{FeatureMembershipRequest, SplitFeaturePart};
use code_atlas::feature_editing::{apply_membership_change, merge_selected_features, short_digest, split_feature_parts};
use code_atlas::features::{ArchitectureRole, Feature, FeatureMembership, FeatureStatus, MembershipSource};
use code_atlas::model::{CodeEdge, CodeNode, NodeKind, ProjectGraph, RelationKind, SourceScope};

fn code_node(id: &str, kind: NodeKind, scope: SourceScope) -> CodeNode {
    CodeNode {
        id: id.into(),
        kind,
        name: format!("{id}_name"),
        path: Some(format!("src/{id}.rs")),
        language: None,
        start_line: None,
        end_line: None,
        owner: None,
        source_scope: scope,
    }
}

fn graph() -> ProjectGraph {
    ProjectGraph::new(
        ".".into(),
        vec![
            code_node("route", NodeKind::Route, SourceScope::Project),
            code_node("svc", NodeKind::Service, SourceScope::Project),
            code_node("repo", NodeKind::Repository, SourceScope::Project),
            code_node("route2", NodeKind::Route, SourceScope::Project),
            code_node("lib", NodeKind::Service, SourceScope::ExternalDependency),
        ],
        vec![
            CodeEdge { id: "e1".into(), source_id: "route".into(), target_id: "svc".into(), relation: RelationKind::Calls },
            CodeEdge { id: "e2".into(), source_id: "svc".into(), target_id: "repo".into(), relation: RelationKind::Calls },
        ],
        vec![],
        vec![],
        vec![],
    )
}

fn roles() -> Vec<ArchitectureRole> {
    vec![
        ArchitectureRole::Route,
        ArchitectureRole::Service,
        ArchitectureRole::Repository,
        ArchitectureRole::Route,
        ArchitectureRole::Unknown,
    ]
}

fn membership(id: &str) -> FeatureMembership {
    FeatureMembership {
        node_id: id.into(),
        confidence_permille: 900,
        reason: "r".into(),
        source: MembershipSource::Deterministic,
        optional: false,
        external_dependency: false,
    }
}

fn feature(id: &str, entry: &[&str], members: &[&str]) -> Feature {
    Feature {
        id: id.into(),
        project_id: "p".into(),
        name: id.to_uppercase(),
        description: String::new(),
        confidence_permille: 600,
        completeness_permille: 0,
        missing_signals: vec![],
        status: FeatureStatus::Detected,
        entry_point_node_ids: entry.iter().map(|s| s.to_string()).collect(),
        node_ids: members.iter().map(|s| s.to_string()).collect(),
        edge_ids: vec![],
        memberships: members.iter().map(|m| membership(m)).collect(),
        routes: vec![],
        pages: vec![],
        services: vec![],
        repositories: vec![],
        models: vec![],
        entities: vec![],
        templates: vec![],
        tests: vec![],
        external_services: vec![],
        business_rules: vec![],
        inputs: vec![],
        outputs: vec![],
        side_effects: vec![],
        security_constraints: vec![],
        source_hash: String::new(),
        ai_provider: None,
        ai_model: None,
        prompt_version: "v".into(),
        created_at: 1,
        updated_at: 1,
    }
}

fn request(action: &str, node: &str) -> FeatureMembershipRequest {
    FeatureMembershipRequest {
        action: action.into(),
        node_id: node.into(),
        target_feature_id: None,
        optional: None,
        external_dependency: None,
    }
}

#[test]
fn adding_a_member_recomputes_edges_and_facets() {
    let (saved, result) = apply_membership_change(&graph(), &roles(), feature("f", &["route"], &["route", "svc"]), &request("add", "repo"), None, 42);
    assert!(saved.is_none());
    let f = result.ok().expect("valid edit");
    assert_eq!(f.node_ids, ["route", "svc", "repo"]);
    assert_eq!(f.edge_ids, ["e1", "e2"]);
    assert_eq!(f.repositories, ["repo_name"]);
    assert_eq!(f.status, FeatureStatus::Edited);
    assert_eq!(f.updated_at, 42);
    assert_eq!(f.source_hash, short_digest("route\0svc\0repo"));
    assert_eq!(f.memberships.last().unwrap().source, MembershipSource::User);
}

#[test]
fn membership_changes_are_refused_with_their_status() {
    let base = || feature("f", &["route"], &["route", "svc"]);
    let status = |r: Result<Feature, code_atlas::feature_editing::EditError>| r.err().map(|e| e.status);
    assert_eq!(status(apply_membership_change(&graph(), &roles(), base(), &request("add", "ghost"), None, 0).1), Some(404));
    assert_eq!(status(apply_membership_change(&graph(), &roles(), base(), &request("add", "lib"), None, 0).1), Some(422));
    assert_eq!(status(apply_membership_change(&graph(), &roles(), base(), &request("remove", "route"), None, 0).1), Some(409));
    assert_eq!(status(apply_membership_change(&graph(), &roles(), base(), &request("optional", "repo"), None, 0).1), Some(404));
    assert_eq!(status(apply_membership_change(&graph(), &roles(), base(), &request("move", "svc"), None, 0).1), Some(400));
    let mut to_missing = request("move", "svc");
    to_missing.target_feature_id = Some("g".into());
    assert_eq!(status(apply_membership_change(&graph(), &roles(), base(), &to_missing, None, 0).1), Some(404));
    assert_eq!(status(apply_membership_change(&graph(), &roles(), base(), &request("rename", "svc"), None, 0).1), Some(400));
}

#[test]
fn moving_a_member_updates_both_features() {
    let mut req = request("move", "svc");
    req.target_feature_id = Some("g".into());
    let target = feature("g", &["route2"], &["route2"]);
    let (saved, result) = apply_membership_change(&graph(), &roles(), feature("f", &["route"], &["route", "svc"]), &req, Some(target), 7);
    let t = saved.expect("target saved");
    assert_eq!(t.node_ids, ["route2", "svc"]);
    assert_eq!(t.memberships.last().unwrap().reason, "déplacé manuellement depuis F");
    let f = result.ok().expect("valid edit");
    assert_eq!(f.node_ids, ["route"]);
    assert!(f.edge_ids.is_empty());
}

#[test]
fn external_marking_moves_node_to_external_services() {
    let mut req = request("external", "svc");
    req.external_dependency = Some(true);
    let (_, result) = apply_membership_change(&graph(), &roles(), feature("f", &["route"], &["route", "svc"]), &req, None, 0);
    let f = result.ok().expect("valid edit");
    assert_eq!(f.node_ids, ["route"]);
    assert_eq!(f.external_services, ["svc_name"]);
    assert!(f.memberships.iter().any(|m| m.node_id == "svc" && m.external_dependency));
}

#[test]
fn merging_features_unions_members() {
    let ids = vec!["f".to_string(), "g".to_string()];
    let fetched = vec![Some(feature("f", &["route"], &["route", "svc"])), Some(feature("g", &["route2"], &["route2", "svc"]))];
    let merged = merge_selected_features(&graph(), &roles(), "p", &ids, None, fetched, 5).ok().expect("valid merge");
    assert_eq!(merged.node_ids, ["route", "svc", "route2"]);
    assert_eq!(merged.entry_point_node_ids, ["route", "route2"]);
    assert_eq!(merged.name, "F + G");
    assert_eq!(merged.status, FeatureStatus::Edited);
    assert!(merged.id.starts_with("feature:merge:") && merged.id.len() == "feature:merge:".len() + 24);
    let err = merge_selected_features(&graph(), &roles(), "p", &vec!["f".into()], None, vec![None], 5).err().unwrap();
    assert_eq!(err.status, 400);
    let missing = vec![Some(feature("f", &["route"], &["route"])), None];
    assert_eq!(merge_selected_features(&graph(), &roles(), "p", &ids, None, missing, 5).err().unwrap().status, 404);
    let mut other = feature("g", &["route2"], &["route2"]);
    other.project_id = "q".into();
    let foreign = vec![Some(feature("f", &["route"], &["route"])), Some(other)];
    assert_eq!(merge_selected_features(&graph(), &roles(), "p", &ids, None, foreign, 5).err().unwrap().status, 400);
}

#[test]
fn splitting_requires_disjoint_parts_with_entry_points() {
    let original = feature("f", &["route", "route2"], &["route", "svc", "route2", "repo"]);
    let part = |name: &str, ids: &[&str]| SplitFeaturePart { name: name.into(), node_ids: ids.iter().map(|s| s.to_string()).collect() };
    let parts = split_feature_parts(&graph(), &roles(), &original, &vec![part("A", &["route", "svc"]), part("B", &["route2", "repo"])])
        .ok()
        .expect("valid split");
    assert_eq!(parts.len(), 2);
    assert_eq!(parts[0].id, "f:split:1");
    assert_eq!(parts[1].entry_point_node_ids, ["route2"]);
    assert_eq!(parts[0].edge_ids, Vec::<String>::new());
    assert_eq!(split_feature_parts(&graph(), &roles(), &original, &vec![part("A", &["route"])]).err().unwrap().status, 400);
    let overlapping = vec![part("A", &["route", "svc"]), part("B", &["route2", "svc"])];
    assert_eq!(split_feature_parts(&graph(), &roles(), &original, &overlapping).err().unwrap().status, 422);
    let no_entry = vec![part("A", &["route"]), part("B", &["svc"])];
    assert_eq!(split_feature_parts(&graph(), &roles(), &original, &no_entry).err().unwrap().status, 422);
}
