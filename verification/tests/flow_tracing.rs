use code_atlas::flow::{trace_flow, FlowDirection, FlowTraceRequest};
use code_atlas::model::{CodeEdge, CodeNode, NodeKind, ProjectGraph, RelationKind, SourceScope};

fn node(id: &str, kind: NodeKind) -> CodeNode {
    CodeNode {
        id: id.into(),
        kind,
        name: id.into(),
        path: Some(format!("src/{id}.rs")),
        language: None,
        start_line: Some(1),
        end_line: Some(2),
        owner: None,
        source_scope: SourceScope::Project,
    }
}

fn edge(id: &str, source: &str, target: &str, relation: RelationKind) -> CodeEdge {
    CodeEdge { id: id.into(), source_id: source.into(), target_id: target.into(), relation }
}

fn between(start: &str, end: &str, max_depth: usize) -> FlowTraceRequest {
    FlowTraceRequest {
        start_node_id: start.into(),
        end_node_id: Some(end.into()),
        direction: FlowDirection::Between,
        max_depth,
        relations: vec![],
    }
}

#[test]
fn traces_route_to_repository_and_avoids_contains_shortcut() {
    let graph = ProjectGraph::new(
        ".".into(),
        vec![
            node("route", NodeKind::ApiEndpoint),
            node("handler", NodeKind::Handler),
            node("repo", NodeKind::Repository),
        ],
        vec![
            edge("contains", "route", "repo", RelationKind::Contains),
            edge("handled", "route", "handler", RelationKind::HandledBy),
            edge("calls", "handler", "repo", RelationKind::Calls),
        ],
        vec![],
        vec![],
        vec![],
    );
    let result = trace_flow(&graph, &between("route", "repo", 6));
    assert!(result.found);
    assert_eq!(result.nodes.len(), 3);
    assert_eq!(result.edges[0].relation, RelationKind::HandledBy);
}

#[test]
fn missing_path_is_graceful() {
    let graph = ProjectGraph::new(
        ".".into(),
        vec![node("a", NodeKind::Page), node("b", NodeKind::Repository)],
        vec![],
        vec![],
        vec![],
        vec![],
    );
    let result = trace_flow(&graph, &between("a", "b", 4));
    assert!(!result.found);
}

#[test]
fn unknown_start_node_is_not_found() {
    let graph = ProjectGraph::new(".".into(), vec![node("a", NodeKind::Page)], vec![], vec![], vec![], vec![]);
    let result = trace_flow(&graph, &between("zzz", "a", 4));
    assert!(!result.found);
    assert!(result.nodes.is_empty());
    assert_eq!(result.total_cost, 0);
}

#[test]
fn trace_cost_sums_relation_weights() {
    let graph = ProjectGraph::new(
        ".".into(),
        vec![
            node("route", NodeKind::ApiEndpoint),
            node("handler", NodeKind::Handler),
            node("repo", NodeKind::Repository),
        ],
        vec![
            edge("handled", "route", "handler", RelationKind::HandledBy),
            edge("calls", "handler", "repo", RelationKind::Calls),
        ],
        vec![],
        vec![],
        vec![],
    );
    let result = trace_flow(&graph, &between("route", "repo", 6));
    assert!(result.found);
    assert_eq!(result.direction, "between");
    assert_eq!(result.steps.len(), 3);
    assert_eq!(result.total_cost, 5);
    assert_eq!(result.steps[2].cumulative_cost, 5);
}
