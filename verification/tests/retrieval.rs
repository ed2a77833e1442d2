use code_atlas::findings::SourceText;
use code_atlas::model::{CodeEdge, CodeNode, NodeKind, ProjectGraph, RelationKind, SourceScope};
use code_atlas::retrieval::build_context;

fn node(id: &str, path: &str, start: usize, end: usize, scope: SourceScope) -> CodeNode {
    CodeNode {
        id: id.into(),
        kind: NodeKind::Function,
        name: id.into(),
        path: Some(path.into()),
        language: None,
        start_line: Some(start),
        end_line: Some(end),
        owner: None,
        source_scope: scope,
    }
}

fn graph() -> ProjectGraph {
    ProjectGraph::new(
        ".".into(),
        vec![
            node("login", "src/login.rs", 5, 5, SourceScope::Project),
            node("helper", "src/helper.rs", 1, 1, SourceScope::Project),
            node("vendor", "vendor/lib.rs", 1, 1, SourceScope::ExternalDependency),
            node("keys", "config/app.env", 1, 1, SourceScope::Project),
        ],
        vec![
            CodeEdge { id: "e1".into(), source_id: "login".into(), target_id: "helper".into(), relation: RelationKind::Calls },
            CodeEdge { id: "e2".into(), source_id: "vendor".into(), target_id: "login".into(), relation: RelationKind::Calls },
        ],
        vec![],
        vec![],
        vec![],
    )
}

fn sources() -> Vec<SourceText> {
    let login: String = (1..=10).map(|i| format!("line {i}\n")).collect::<String>().replace("line 4", "let password = 1");
    vec![
        SourceText { path: "src/login.rs".into(), text: login },
        SourceText { path: "src/helper.rs".into(), text: "fn helper() {}\n".into() },
        SourceText { path: "vendor/lib.rs".into(), text: "fn vendored() {}\n".into() },
        SourceText { path: "config/app.env".into(), text: "TOKEN=1\n".into() },
    ]
}

#[test]
fn context_quotes_focus_then_neighbours_with_citations() {
    let g = graph();
    let ctx = build_context(&g, Some("login"), &vec![], &sources());
    assert_eq!(ctx.citations, vec!["src/login.rs:2-8".to_string(), "src/helper.rs:1-1".to_string()]);
    let expected_login = "\nSOURCE src/login.rs:2-8\nNODE Function login\n    2 | line 2\n    3 | line 3\n    4 | [REDACTED SENSITIVE ASSIGNMENT]\n    5 | line 5\n    6 | line 6\n    7 | line 7\n    8 | line 8\n\n";
    assert!(ctx.text.starts_with(expected_login));
    assert!(ctx.text.ends_with("\nSOURCE src/helper.rs:1-1\nNODE Function helper\n    1 | fn helper() {}\n\n"));
    assert!(!ctx.text.contains("vendored"));
}

#[test]
fn context_skips_sensitive_and_unknown_nodes() {
    let g = graph();
    let ranked = vec!["keys".to_string(), "missing".to_string(), "helper".to_string()];
    let ctx = build_context(&g, None, &ranked, &sources());
    assert_eq!(ctx.citations, vec!["src/helper.rs:1-1".to_string()]);
    assert!(!ctx.text.contains("TOKEN"));
}

#[test]
fn context_truncates_long_lines_and_stays_within_budget() {
    let long = "x".repeat(700);
    let g = ProjectGraph::new(".".into(), vec![node("big", "src/big.rs", 1, 1, SourceScope::Project)], vec![], vec![], vec![], vec![]);
    let ctx = build_context(&g, Some("big"), &vec![], &vec![SourceText { path: "src/big.rs".into(), text: long }]);
    assert!(ctx.text.contains("\u{2026}[line truncated]"));
    assert!(ctx.text.contains(&format!("    1 | {} \u{2026}[line truncated]\n", "x".repeat(600))));
    assert!(ctx.text.len() <= 40_000);
}
