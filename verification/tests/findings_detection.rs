use code_atlas::detection::detect_findings;
use code_atlas::findings::{pattern_column_outside_literal, pattern_outside_literal, FindingCategory, FindingSeverity, SourceText};
use code_atlas::findings::FindingStatus;
use code_atlas::model::{CodeEdge, CodeNode, NodeKind, ProjectGraph, RelationKind, SourceScope};

fn node(id: &str, path: &str, end_line: usize, scope: SourceScope) -> CodeNode {
    CodeNode {
        id: id.into(),
        kind: NodeKind::Function,
        name: id.into(),
        path: Some(path.into()),
        language: None,
        start_line: Some(1),
        end_line: Some(end_line),
        owner: None,
        source_scope: scope,
    }
}

fn source(path: &str, text: &str) -> SourceText {
    SourceText { path: path.into(), text: text.into() }
}

#[test]
fn detects_long_first_party_code_but_not_external_code() {
    let graph = ProjectGraph::new(
        ".".into(),
        vec![
            node("ours", "ours.rs", 140, SourceScope::Project),
            node("external", "external.rs", 140, SourceScope::ExternalDependency),
        ],
        vec![],
        vec![],
        vec![],
        vec![],
    );
    let findings = detect_findings("p", &graph, &vec![]);
    assert!(findings
        .iter()
        .any(|finding| finding.detector == "long_function" && finding.node_ids == ["ours"]));
    assert!(!findings.iter().any(|finding| finding.node_ids == ["external"]));
}

#[test]
fn security_patterns_inside_catalogue_literals_are_not_findings() {
    assert!(!pattern_outside_literal(
        r#"[\"password =\", \"unserialize(\", \"dangerouslysetinnerhtml\"]"#,
        "password ="
    ));
    assert!(!pattern_outside_literal(r#"let patterns = [\"unserialize(\"];"#, "unserialize("));
    assert!(pattern_outside_literal("let digest = md5(user_input);", "md5("));
    assert!(!pattern_outside_literal(r#"let libellé = \"md5(\";"#, "md5("));
}

#[test]
fn security_detection_rejects_http_query_and_non_crypto_hashing() {
    let graph = ProjectGraph::new(
        ".".into(),
        vec![
            node("http", "http.php", 1, SourceScope::Project),
            node("dedupe", "dedupe.php", 1, SourceScope::Project),
            node("sql", "sql.php", 2, SourceScope::Project),
            node("upload", "upload.php", 2, SourceScope::Project),
        ],
        vec![],
        vec![],
        vec![],
        vec![],
    );
    let sources = vec![
        source("http.php", "$client->request('GET', $url, ['query' => $params]);\n"),
        source("dedupe.php", "$dedupeKey = sha1($campaignId . $recipientId);\n"),
        source(
            "sql.php",
            "$sql = \"SELECT * FROM users WHERE id = \".$_GET['id'];\n$db->query($sql);\n",
        ),
        source(
            "upload.php",
            "$uploadedFile = $request->files->get('file');\n$content = file_get_contents($uploadedFile->getPathname());\n",
        ),
    ];
    let findings = detect_findings("p", &graph, &sources);
    assert!(!findings.iter().any(|finding| {
        finding.category == FindingCategory::Security
            && matches!(
                finding.node_ids.first().map(String::as_str),
                Some("http" | "dedupe" | "upload")
            )
    }));
    let sql = findings
        .iter()
        .find(|finding| finding.detector == "sql_injection")
        .expect("dynamic SQL fed by external input must be reported");
    assert_eq!(sql.node_ids, ["sql"]);
    assert_eq!(sql.primary_span.as_ref().unwrap().start_line, 2);
}

#[test]
fn short_functions_and_test_files_give_no_long_function_finding() {
    let graph = ProjectGraph::new(
        ".".into(),
        vec![
            node("short", "src/short.rs", 119, SourceScope::Project),
            node("long_test", "tests/long_test.rs", 300, SourceScope::Project),
            node("exact", "src/exact.rs", 120, SourceScope::WorkspacePackage),
        ],
        vec![],
        vec![],
        vec![],
        vec![],
    );
    let findings = detect_findings("p", &graph, &vec![]);
    let long: Vec<_> = findings.iter().filter(|f| f.detector == "long_function").collect();
    assert_eq!(long.len(), 1);
    assert_eq!(long[0].node_ids, ["exact"]);
}

#[test]
fn pattern_column_is_reported_outside_literals_only() {
    let line: Vec<char> = "x = \"md5(\"; md5(y)".chars().collect();
    let pattern: Vec<char> = "md5(".chars().collect();
    assert_eq!(pattern_column_outside_literal(&line, &pattern), Some(13));
    let only_literal: Vec<char> = "x = \"md5(\";".chars().collect();
    assert_eq!(pattern_column_outside_literal(&only_literal, &pattern), None);
}

fn calls(id: &str, from: &str, to: &str) -> CodeEdge {
    CodeEdge { id: id.into(), source_id: from.into(), target_id: to.into(), relation: RelationKind::Calls }
}

#[test]
fn mutual_calls_give_one_cycle_finding() {
    let graph = ProjectGraph::new(
        ".".into(),
        vec![node("a", "a.rs", 2, SourceScope::Project), node("b", "b.rs", 2, SourceScope::Project)],
        vec![calls("ab", "a", "b"), calls("ba", "b", "a")],
        vec![],
        vec![],
        vec![],
    );
    let findings = detect_findings("p", &graph, &vec![]);
    let cycles: Vec<_> = findings.iter().filter(|f| f.detector == "direct_call_cycle").collect();
    assert_eq!(cycles.len(), 1);
    assert_eq!(cycles[0].node_ids, vec!["a".to_string(), "b".to_string()]);
    assert_eq!(cycles[0].edge_ids.len(), 1);
    assert_eq!(cycles[0].category, FindingCategory::Architecture);
    assert_eq!(cycles[0].severity, FindingSeverity::Medium);
}

#[test]
fn every_finding_is_open_and_named_by_its_fingerprint() {
    let graph = ProjectGraph::new(
        ".".into(),
        vec![node("long", "long.rs", 300, SourceScope::Project)],
        vec![],
        vec![],
        vec![],
        vec![],
    );
    let findings = detect_findings("p", &graph, &vec![]);
    let long: Vec<_> = findings.iter().filter(|f| f.detector == "long_function").collect();
    assert_eq!(long.len(), 1);
    assert_eq!(long[0].severity, FindingSeverity::High);
    for finding in &findings {
        assert_eq!(finding.status, FindingStatus::Open);
        assert_eq!(finding.project_id, "p");
        assert_eq!(finding.id, format!("finding:{}", &finding.fingerprint[..24]));
    }
}
