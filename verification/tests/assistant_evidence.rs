use code_atlas::assistant::{assemble_answer, collect_node_ids, git_comparison, grounded_indices, Citation, RetrievedSource, UiAction};
use code_atlas::findings::{finding, finding_summary, FindingCategory, FindingInput, FindingSeverity};
use code_atlas::hashing::{id_at, new_id};
use code_atlas::json::JsonDoc;
use code_atlas::model::{CodeNode, NodeKind, ProjectGraph, SourceScope};
use code_atlas::util::response_text;

fn node(id: &str) -> CodeNode {
    CodeNode {
        id: id.into(),
        kind: NodeKind::Function,
        name: id.into(),
        path: None,
        language: None,
        start_line: None,
        end_line: None,
        owner: None,
        source_scope: SourceScope::Project,
    }
}

fn object(members: Vec<(&str, JsonDoc)>) -> JsonDoc {
    JsonDoc::Object(members.into_iter().map(|(k, v)| (k.to_string(), v)).collect())
}

#[test]
fn tool_results_contribute_known_node_ids_once() {
    let graph = ProjectGraph::new(".".into(), vec![node("a"), node("b")], vec![], vec![], vec![], vec![]);
    let value = object(vec![
        ("first", JsonDoc::Text("b".into())),
        ("list", JsonDoc::Array(vec![JsonDoc::Text("unknown".into()), JsonDoc::Text("a".into()), JsonDoc::Text("b".into())])),
        ("n", JsonDoc::Number("3".into())),
    ]);
    let mut ids = vec!["a".to_string()];
    collect_node_ids(&value, &graph, &mut ids);
    assert_eq!(ids, vec!["a".to_string(), "b".to_string()]);
}

#[test]
fn tool_results_add_at_most_twenty_four_ids() {
    let nodes: Vec<CodeNode> = (0..30).map(|i| node(&format!("n{i}"))).collect();
    let graph = ProjectGraph::new(".".into(), nodes, vec![], vec![], vec![], vec![]);
    let value = JsonDoc::Array((0..30).map(|i| JsonDoc::Text(format!("n{i}"))).collect());
    let mut ids = Vec::new();
    collect_node_ids(&value, &graph, &mut ids);
    assert_eq!(ids.len(), 24);
    assert_eq!(ids[23], "n23");
}

#[test]
fn reply_text_joins_output_text_parts() {
    let part = |kind: &str, text: &str| object(vec![("type", JsonDoc::Text(kind.into())), ("text", JsonDoc::Text(text.into()))]);
    let reply = object(vec![(
        "output",
        JsonDoc::Array(vec![
            object(vec![("content", JsonDoc::Array(vec![part("output_text", "Hello"), part("refusal", "no")]))]),
            object(vec![("content", JsonDoc::Array(vec![part("output_text", "world")]))]),
        ]),
    )]);
    assert_eq!(response_text(&reply), "Hello\nworld");
    assert_eq!(response_text(&object(vec![])), "");
}

#[test]
fn comparisons_name_two_revisions() {
    assert_eq!(git_comparison("Quelles différences entre main et `feature/x`."), (Some("main".into()), Some("feature/x".into())));
    assert_eq!(git_comparison("diff between v1.0. and v2.0..").1, Some("v2.0".into()));
    assert_eq!(git_comparison("what changed?"), (None, None));
}

#[test]
fn identifiers_are_prefixed_digests() {
    let a = id_at("request", "GET /users", 42);
    assert_eq!(a, id_at("request", "GET /users", 42));
    assert_ne!(a, id_at("request", "GET /users", 43));
    assert!(a.starts_with("request:"));
    assert_eq!(a.len(), "request:".len() + 24);
    let fresh = new_id("collection", "smoke");
    assert!(fresh.starts_with("collection:"));
    assert_eq!(fresh.len(), "collection:".len() + 24);
}

fn sample(severity: FindingSeverity, title: &str) -> code_atlas::findings::Finding {
    finding(FindingInput {
        project_id: "p".into(),
        category: FindingCategory::Quality,
        severity,
        title: title.into(),
        description: String::new(),
        evidence: vec![],
        node_ids: vec![],
        edge_ids: vec![],
        path: None,
        start_line: None,
        end_line: None,
        detector: "d".into(),
        confidence_permille: 500,
        source_hash: String::new(),
    })
}

#[test]
fn summary_counts_severities_by_name() {
    let findings = vec![
        sample(FindingSeverity::High, "a"),
        sample(FindingSeverity::Low, "b"),
        sample(FindingSeverity::High, "c"),
    ];
    match finding_summary(&findings) {
        JsonDoc::Object(ms) => {
            let shown: Vec<(String, String)> = ms
                .into_iter()
                .map(|(k, v)| match v {
                    JsonDoc::Number(n) => (k, n),
                    _ => panic!("count"),
                })
                .collect();
            assert_eq!(shown, vec![("high".to_string(), "2".to_string()), ("low".to_string(), "1".to_string())]);
        },
        _ => panic!("object"),
    }
}

fn located(id: &str, path: &str) -> CodeNode {
    let mut n = node(id);
    n.path = Some(path.into());
    n
}

fn citation(id: &str, path: &str, text: &str) -> Citation {
    Citation {
        node_id: id.into(),
        path: path.into(),
        symbol: id.into(),
        start_line: 1,
        end_line: 3,
        source_hash: "h".into(),
        source: text.into(),
        tool: "get_source".into(),
    }
}

fn reread(text: &str) -> Option<RetrievedSource> {
    Some(RetrievedSource { text: text.into(), start_line: 1, end_line: 3, hash: "h".into() })
}

#[test]
fn answers_keep_only_citations_that_still_hold() {
    let graph = ProjectGraph::new(".".into(), vec![located("login", "src/login.rs"), located("old", "src/old.rs")], vec![], vec![], vec![], vec![]);
    let draft = assemble_answer(
        &graph,
        vec![citation("login", "src/login.rs", "fn login() {}"), citation("old", "src/old.rs", "fn old() {}"), citation("gone", "src/gone.rs", "")],
        &vec![reread("fn login() {}"), reread("fn old() { changed }"), None],
    );
    assert_eq!(draft.citations.len(), 1);
    assert_eq!(draft.citations[0].node_id, "login");
    assert_eq!(draft.entities.len(), 1);
    assert_eq!(draft.entities[0].id, "login");
    assert_eq!(
        draft.answer,
        "J’ai retrouvé 1 éléments avec des sources vérifiées. Le point d’entrée le mieux classé est login (src/login.rs). Les relations et le code sont accessibles ci-dessous."
    );
    assert!(matches!(&draft.actions[0], UiAction::OpenSourceRange { node_id, start_line: 1, end_line: 3, .. } if node_id == "login"));
    assert_eq!(draft.suggested_followups.len(), 4);
}

#[test]
fn answers_without_evidence_refuse() {
    let graph = ProjectGraph::new(".".into(), vec![], vec![], vec![], vec![], vec![]);
    let draft = assemble_answer(&graph, vec![citation("x", "x.rs", "")], &vec![None]);
    assert!(draft.citations.is_empty() && draft.entities.is_empty() && draft.actions.is_empty());
    assert!(draft.answer.starts_with("Je n’ai pas trouvé de preuve source suffisante."));
    assert!(draft.suggested_followups.is_empty());
}

#[test]
fn provider_answers_must_cite_handed_evidence() {
    assert!(grounded_indices(&vec![0, 1], 2));
    assert!(!grounded_indices(&vec![], 2));
    assert!(!grounded_indices(&vec![2], 2));
}
