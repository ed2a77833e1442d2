use code_atlas::context::{redact_sensitive_line, sensitive_path, ContextIntent, TokenBudgetManager};
use code_atlas::context_pack::{build_context_pack, ContextPackRequest, LibraryEntry};
use code_atlas::findings::SourceText;
use code_atlas::model::{CodeEdge, CodeNode, NodeKind, ProjectGraph, RelationKind, SourceScope};

fn node(id: &str, path: &str, start: usize, end: usize, scope: SourceScope) -> CodeNode {
    CodeNode {
        id: id.into(),
        kind: NodeKind::Function,
        name: id.into(),
        path: Some(path.into()),
        language: None,
        start_line: Some(start),
        end_line: Some(end),
        owner: None,
        source_scope: scope,
    }
}

#[test]
fn budget_never_exceeds_hard_cap() {
    let manager = TokenBudgetManager::default();
    assert_eq!(manager.context_cap(Some(900_000)), 180_000);
    let graph = ProjectGraph::new(".".into(), vec![], vec![], vec![], vec![], vec![]);
    let pack = build_context_pack(
        ContextPackRequest {
            project_id: "p",
            graph: &graph,
            intent: ContextIntent::PrepareTask,
            task: "task",
            explicit_ids: &vec![],
            requested_tokens: Some(900_000),
            library: &vec![],
            features: &vec![],
            findings: &vec![],
        },
        &vec![],
        &vec![],
    );
    assert!(pack.max_tokens <= 180_000);
}

#[test]
fn context_pack_selects_first_party_nodes_and_redacts_excerpts() {
    let graph = ProjectGraph::new(
        ".".into(),
        vec![
            node("login", "src/login.rs", 2, 3, SourceScope::Project),
            node("vendor", "vendor/lib.rs", 1, 1, SourceScope::ExternalDependency),
            node("login_test", "tests/login_test.rs", 1, 1, SourceScope::Project),
            node("secret", "config/.env", 1, 1, SourceScope::Project),
        ],
        vec![CodeEdge { id: "e".into(), source_id: "login_test".into(), target_id: "login".into(), relation: RelationKind::Calls }],
        vec![],
        vec![],
        vec![],
    );
    let sources = vec![
        SourceText { path: "src/login.rs".into(), text: "fn header() {}\nlet password = \"x\";\nfn login() {}\nfn after() {}\n".into() },
        SourceText { path: "tests/login_test.rs".into(), text: "fn t() {}".into() },
        SourceText { path: "config/.env".into(), text: "TOKEN=1".into() },
    ];
    let library = vec![LibraryEntry {
        id: "l".into(),
        display_name: "Session store".into(),
        description: "keeps sessions".into(),
        tags: vec!["auth".into()],
    }];
    let pack = build_context_pack(
        ContextPackRequest {
            project_id: "p",
            graph: &graph,
            intent: ContextIntent::ExplainNode,
            task: "explain the login auth flow",
            explicit_ids: &vec!["login".into(), "vendor".into(), "login".into()],
            requested_tokens: None,
            library: &library,
            features: &vec![],
            findings: &vec![],
        },
        &vec!["login_test".into(), "secret".into(), "missing".into()],
        &sources,
    );
    assert_eq!(pack.max_tokens, 20_000);
    let ids: Vec<&str> = pack.selected_entities.iter().map(|e| e.id.as_str()).collect();
    assert_eq!(ids, ["login", "login_test", "secret"]);
    assert_eq!(pack.selected_entities[0].reason, "explicit selection");
    assert_eq!(pack.selected_entities[1].reason, "ranked task relevance");
    assert_eq!(pack.source_snippets.len(), 2);
    assert_eq!(pack.source_snippets[0].source, "[REDACTED SENSITIVE ASSIGNMENT]\nfn login() {}");
    assert_eq!(pack.source_snippets[1].path, "tests/login_test.rs");
    assert_eq!(pack.graph_evidence, ["login_test --CALLS--> login"]);
    assert_eq!(pack.tests, ["tests/login_test.rs"]);
    assert_eq!(pack.library_matches.len(), 1);
    assert_eq!(pack.project_summary, "4 nodes, 1 edges, 0 unresolved calls");
    assert_eq!(pack.token_estimate, 12 + 3);
    assert!(!pack.truncated);
}

#[test]
fn context_pack_stops_at_the_first_excerpt_over_budget() {
    let long_line = "x".repeat(8_000);
    let graph = ProjectGraph::new(
        ".".into(),
        vec![
            node("a", "src/a.rs", 1, 1, SourceScope::Project),
            node("b", "src/b.rs", 1, 1, SourceScope::Project),
            node("c", "src/c.rs", 1, 1, SourceScope::Project),
        ],
        vec![],
        vec![],
        vec![],
        vec![],
    );
    let sources = vec![
        SourceText { path: "src/a.rs".into(), text: "fn a() {}".into() },
        SourceText { path: "src/b.rs".into(), text: long_line },
        SourceText { path: "src/c.rs".into(), text: "fn c() {}".into() },
    ];
    let pack = build_context_pack(
        ContextPackRequest {
            project_id: "p",
            graph: &graph,
            intent: ContextIntent::PrepareTask,
            task: "task",
            explicit_ids: &vec!["a".into(), "b".into(), "c".into()],
            requested_tokens: Some(1_000),
            library: &vec![],
            features: &vec![],
            findings: &vec![],
        },
        &vec![],
        &sources,
    );
    assert!(pack.truncated);
    assert_eq!(pack.selected_entities.len(), 2);
    assert_eq!(pack.source_snippets.len(), 1);
    assert_eq!(pack.token_estimate, 3);
}

#[test]
fn budget_defaults_and_floor() {
    let manager = TokenBudgetManager::default();
    assert_eq!(manager.context_cap(None), 20_000);
    assert_eq!(manager.context_cap(Some(10)), 1_000);
    assert_eq!(manager.context_cap(Some(50_000)), 50_000);
    let tight = TokenBudgetManager { configured_max: 100, reserve: 500 };
    assert_eq!(tight.context_cap(Some(5_000)), 1_000);
}

#[test]
fn token_estimate_rounds_up_quarters() {
    assert_eq!(TokenBudgetManager::estimate(""), 0);
    assert_eq!(TokenBudgetManager::estimate("abcd"), 1);
    assert_eq!(TokenBudgetManager::estimate("abcde"), 2);
    assert_eq!(TokenBudgetManager::estimate("héllo wörld"), 3);
}

#[test]
fn secrets_are_redacted_from_lines_and_paths() {
    assert_eq!(redact_sensitive_line("API_KEY = abc"), "[REDACTED SENSITIVE ASSIGNMENT]");
    assert_eq!(redact_sensitive_line("let total = a + b;"), "let total = a + b;");
    assert_eq!(redact_sensitive_line("password is not assigned here"), "password is not assigned here");
    assert!(sensitive_path(".env"));
    assert!(!sensitive_path("src/main.rs"));
}

#[test]
fn quoted_windows_surround_the_node() {
    assert_eq!(code_atlas::context::context_window(Some(10), Some(20)), (7, 23));
    assert_eq!(code_atlas::context::context_window(Some(2), None), (1, 4));
    assert_eq!(code_atlas::context::context_window(None, None), (1, 4));
    assert_eq!(code_atlas::context::context_window(Some(10), Some(500)), (7, 127));
}

#[test]
fn quoted_sources_are_cited_by_path_and_lines() {
    assert_eq!(code_atlas::context::citation_label("src/main.rs", 7, 23), "src/main.rs:7-23");
}
