use code_atlas::documentation::{build_project_documentation, project_content_hash};
use code_atlas::model::{CodeEdge, CodeNode, NodeKind, ProjectGraph, RelationKind, SourceScope};

fn node(id: &str) -> CodeNode {
    CodeNode {
        id: id.into(),
        kind: NodeKind::Function,
        name: id.into(),
        path: Some("src/lib.rs".into()),
        language: None,
        start_line: Some(1),
        end_line: Some(3),
        owner: None,
        source_scope: SourceScope::Project,
    }
}

#[test]
fn docs_have_stable_hash_and_markdown() {
    let graph = ProjectGraph::new("/tmp/demo".into(), vec![], vec![], vec![], vec![], vec![]);
    let a = build_project_documentation("p", &graph);
    let b = build_project_documentation("p", &graph);
    assert_eq!(a.content_hash, b.content_hash);
    assert!(a.markdown().contains("# demo"));
}

#[test]
fn content_hash_of_empty_graph_is_sha256_of_nothing() {
    let graph = ProjectGraph::new(".".into(), vec![], vec![], vec![], vec![], vec![]);
    assert_eq!(
        project_content_hash(&graph),
        "e3b0c44298fc1c149afbf4c8996fb92427ae41e4649b934ca495991b7852b855"
    );
}

#[test]
fn content_hash_changes_with_edges() {
    let plain = ProjectGraph::new(".".into(), vec![node("a"), node("b")], vec![], vec![], vec![], vec![]);
    let linked = ProjectGraph::new(
        ".".into(),
        vec![node("a"), node("b")],
        vec![CodeEdge { id: "a-calls->b".into(), source_id: "a".into(), target_id: "b".into(), relation: RelationKind::Calls }],
        vec![],
        vec![],
        vec![],
    );
    assert_ne!(project_content_hash(&plain), project_content_hash(&linked));
    assert_eq!(project_content_hash(&plain).len(), 64);
}

#[test]
fn markdown_title_falls_back_to_project() {
    let graph = ProjectGraph::new("/".into(), vec![], vec![], vec![], vec![], vec![]);
    let doc = build_project_documentation("p", &graph);
    assert!(doc.markdown().starts_with("# project\n\n"));
    assert_eq!(doc.known_limitations.len(), 1);
    assert!(doc.known_limitations[0].starts_with("0 référence(s)"));
}
