use code_atlas::feature_ai::{
    apply_ai_feature_completeness, apply_ai_feature_proposals, AiFeatureCompletenessProposal,
    AiFeatureCompletenessProposals, AiFeatureProposal, AiFeatureProposals,
};
use code_atlas::feature_detection::detect_feature_candidates;
use code_atlas::features::{ArchitectureRole, MembershipSource};
use code_atlas::model::{CodeEdge, CodeNode, NodeKind, ProjectGraph, RelationKind, SourceScope};

fn node(id: &str, kind: NodeKind) -> CodeNode {
    CodeNode {
        id: id.into(),
        kind,
        name: id.into(),
        path: Some(format!("src/{id}.rs")),
        language: None,
        start_line: Some(1),
        end_line: Some(5),
        owner: None,
        source_scope: SourceScope::Project,
    }
}

fn login_graph() -> (ProjectGraph, Vec<ArchitectureRole>, Vec<String>) {
    let graph = ProjectGraph::new(
        ".".into(),
        vec![node("login", NodeKind::Route), node("auth", NodeKind::Service)],
        vec![CodeEdge::new("login".into(), "auth".into(), RelationKind::Calls)],
        vec![],
        vec![],
        vec![],
    );
    (graph, vec![ArchitectureRole::Route, ArchitectureRole::Service], vec!["auth".into(), "auth".into()])
}

fn proposal(candidate_id: &str, name: &str, members: Vec<String>, entries: Vec<String>, confidence: u32) -> AiFeatureProposal {
    AiFeatureProposal {
        candidate_id: candidate_id.into(),
        name: name.into(),
        description: "Authenticate a user".into(),
        member_node_ids: members,
        entry_point_node_ids: entries,
        business_rules: vec!["credentials required".into()],
        inputs: vec!["credentials".into()],
        outputs: vec!["session".into()],
        side_effects: vec![],
        security_constraints: vec!["rate limit".into()],
        confidence_permille: confidence,
    }
}

#[test]
fn ai_proposals_are_strictly_constrained_to_graph_candidates() {
    let (graph, roles, domains) = login_graph();
    let candidates = detect_feature_candidates("p", &graph, &roles, &domains);
    assert_eq!(candidates.len(), 1);
    let candidate = &candidates[0];
    let proposals = AiFeatureProposals {
        features: vec![proposal(
            &candidate.id,
            "Authentication",
            candidate.node_ids.clone(),
            candidate.entry_point_node_ids.clone(),
            900,
        )],
    };
    let generated = apply_ai_feature_proposals(&graph, &candidates, proposals, "Mock", "structured-v1").unwrap();
    assert_eq!(generated[0].name, "Authentication");
    assert_eq!(generated[0].ai_provider.as_deref(), Some("Mock"));
    let invalid = AiFeatureProposals {
        features: vec![proposal(
            &candidate.id,
            "Invalid",
            vec!["invented".into()],
            candidate.entry_point_node_ids.clone(),
            1000,
        )],
    };
    assert!(apply_ai_feature_proposals(&graph, &candidates, invalid, "Mock", "model").is_err());
}

#[test]
fn ai_proposal_results_blend_confidence_and_credit_memberships() {
    let (graph, roles, domains) = login_graph();
    let candidates = detect_feature_candidates("p", &graph, &roles, &domains);
    let candidate = &candidates[0];
    let before = candidate.confidence_permille as u64;
    let proposals = AiFeatureProposals {
        features: vec![proposal(&candidate.id, "  Authentication  ", vec!["login".into()], vec!["login".into()], 2000)],
    };
    let generated = apply_ai_feature_proposals(&graph, &candidates, proposals, "Mock", "m").unwrap();
    let f = &generated[0];
    assert_eq!(f.name, "Authentication");
    assert_eq!(f.node_ids, vec!["login".to_string()]);
    assert_eq!(f.confidence_permille as u64, ((before * 650 + 1000 * 350) / 1000).min(1000));
    assert!(f.memberships.iter().all(|m| m.node_id == "login" && m.source == MembershipSource::Ai));
    assert_eq!(f.prompt_version, "feature-detection-v1");
    assert_eq!(f.ai_model.as_deref(), Some("m"));
}

#[test]
fn ai_proposals_report_each_refusal() {
    let (graph, roles, domains) = login_graph();
    let candidates = detect_feature_candidates("p", &graph, &roles, &domains);
    let id = candidates[0].id.clone();
    let unknown = AiFeatureProposals { features: vec![proposal("nope", "x", vec!["login".into()], vec!["login".into()], 0)] };
    assert_eq!(apply_ai_feature_proposals(&graph, &candidates, unknown, "Mock", "m").unwrap_err(), "unknown candidate nope");
    let no_member = AiFeatureProposals { features: vec![proposal(&id, "x", vec![], vec!["login".into()], 0)] };
    assert_eq!(
        apply_ai_feature_proposals(&graph, &candidates, no_member, "Mock", "m").unwrap_err(),
        format!("invalid member in proposal {id}")
    );
    let bad_entry = AiFeatureProposals { features: vec![proposal(&id, "x", vec!["login".into()], vec!["auth".into()], 0)] };
    assert_eq!(
        apply_ai_feature_proposals(&graph, &candidates, bad_entry, "Mock", "m").unwrap_err(),
        format!("invalid entry point in proposal {id}")
    );
    let empty = AiFeatureProposals { features: vec![] };
    assert_eq!(apply_ai_feature_proposals(&graph, &candidates, empty, "Mock", "m").unwrap_err(), "AI returned no feature proposals");
}

fn layered_graph() -> (ProjectGraph, Vec<ArchitectureRole>, Vec<String>) {
    let graph = ProjectGraph::new(
        ".".into(),
        vec![
            node("route", NodeKind::Route),
            node("service", NodeKind::Service),
            node("repository", NodeKind::Repository),
            node("unrelated", NodeKind::Model),
        ],
        vec![
            CodeEdge::new("route".into(), "service".into(), RelationKind::Calls),
            CodeEdge::new("service".into(), "repository".into(), RelationKind::Calls),
        ],
        vec![],
        vec![],
        vec![],
    );
    let roles = vec![ArchitectureRole::Route, ArchitectureRole::Service, ArchitectureRole::Repository, ArchitectureRole::Model];
    let domains = vec!["orders".to_string(); 4];
    (graph, roles, domains)
}

#[test]
fn completeness_pass_accepts_only_persisted_first_party_neighbors() {
    let (graph, roles, domains) = layered_graph();
    let mut features = detect_feature_candidates("p", &graph, &roles, &domains);
    let feature_id = features[0].id.clone();
    features[0].node_ids.retain(|id| id != "repository");
    features[0].memberships.retain(|membership| membership.node_id != "repository");
    apply_ai_feature_completeness(
        &graph,
        &roles,
        &mut features,
        AiFeatureCompletenessProposals {
            features: vec![AiFeatureCompletenessProposal {
                feature_id: feature_id.clone(),
                additional_node_ids: vec!["repository".into()],
                missing_signals: vec!["aucun test d\u{2019}int\u{e9}gration observ\u{e9}".into()],
                completeness_permille: 800,
            }],
        },
    )
    .unwrap();
    assert!(features[0].node_ids.contains(&"repository".into()));
    assert!(features[0]
        .memberships
        .iter()
        .any(|membership| membership.node_id == "repository" && membership.source == MembershipSource::Ai));

    let rejected = apply_ai_feature_completeness(
        &graph,
        &roles,
        &mut features,
        AiFeatureCompletenessProposals {
            features: vec![AiFeatureCompletenessProposal {
                feature_id,
                additional_node_ids: vec!["unrelated".into()],
                missing_signals: vec![],
                completeness_permille: 1000,
            }],
        },
    );
    assert!(rejected.is_err());
}

#[test]
fn completeness_pass_records_signals_edges_and_messages() {
    let (graph, roles, domains) = layered_graph();
    let mut features = detect_feature_candidates("p", &graph, &roles, &domains);
    let feature_id = features[0].id.clone();
    features[0].node_ids.retain(|id| id != "repository");
    features[0].memberships.retain(|membership| membership.node_id != "repository");
    let result = apply_ai_feature_completeness(
        &graph,
        &roles,
        &mut features,
        AiFeatureCompletenessProposals {
            features: vec![AiFeatureCompletenessProposal {
                feature_id: feature_id.clone(),
                additional_node_ids: vec!["repository".into(), "repository".into()],
                missing_signals: vec!["  no audit log  ".into(), "   ".into()],
                completeness_permille: 400,
            }],
        },
    );
    assert!(result.is_ok());
    let f = &features[0];
    assert_eq!(f.node_ids.iter().filter(|id| *id == "repository").count(), 1);
    let added = f.memberships.iter().find(|m| m.node_id == "repository").unwrap();
    assert_eq!(added.confidence_permille, 720);
    assert_eq!(added.reason, "compl\u{e9}ment IA valid\u{e9} par la relation persist\u{e9}e CALLS");
    assert!(f.missing_signals.contains(&"Analyse IA : no audit log".to_string()));
    let mut sorted = f.missing_signals.clone();
    sorted.sort();
    sorted.dedup();
    assert_eq!(sorted, f.missing_signals);
    assert_eq!(f.edge_ids.len(), 2);
    assert_eq!(f.prompt_version, "feature-detection-v2");
    let unknown = apply_ai_feature_completeness(
        &graph,
        &roles,
        &mut features,
        AiFeatureCompletenessProposals {
            features: vec![AiFeatureCompletenessProposal {
                feature_id: "missing".into(),
                additional_node_ids: vec![],
                missing_signals: vec![],
                completeness_permille: 0,
            }],
        },
    );
    assert_eq!(unknown.unwrap_err(), "unknown feature missing");
    let ghost_node = apply_ai_feature_completeness(
        &graph,
        &roles,
        &mut features,
        AiFeatureCompletenessProposals {
            features: vec![AiFeatureCompletenessProposal {
                feature_id: feature_id.clone(),
                additional_node_ids: vec!["ghost".into()],
                missing_signals: vec![],
                completeness_permille: 0,
            }],
        },
    );
    assert_eq!(ghost_node.unwrap_err(), "unknown completeness node: ghost");
    let far = apply_ai_feature_completeness(
        &graph,
        &roles,
        &mut features,
        AiFeatureCompletenessProposals {
            features: vec![AiFeatureCompletenessProposal {
                feature_id,
                additional_node_ids: vec!["unrelated".into()],
                missing_signals: vec![],
                completeness_permille: 0,
            }],
        },
    );
    assert_eq!(far.unwrap_err(), "non-neighbor completeness member: unrelated");
}
