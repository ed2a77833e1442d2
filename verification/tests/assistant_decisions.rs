use code_atlas::assistant::{
    route_specialists, AgentOrchestrator, CandidateSource, ContextLimits, RetrievedSource, UiAction,
};

fn candidate(node: &str, path: &str, chars: usize) -> CandidateSource {
    CandidateSource {
        node_id: node.into(),
        path: path.into(),
        symbol: node.into(),
        source: RetrievedSource { text: "x".repeat(chars), start_line: 1, end_line: 2, hash: "h".into() },
    }
}

fn limits(tokens: usize, files: usize) -> ContextLimits {
    ContextLimits { max_iterations: 3, max_context_tokens: tokens, max_nodes: 24, max_files: files, max_tool_calls: 8 }
}

#[test]
fn citations_respect_file_and_token_limits() {
    let candidates = vec![
        candidate("a", "src/a.rs", 40),
        candidate("b", "src/b.rs", 40),
        candidate("a2", "src/a.rs", 8),
        candidate("big", "src/a.rs", 100),
    ];
    let (citations, tokens) = AgentOrchestrator::select_citations(&candidates, &limits(25, 1));
    let ids: Vec<&str> = citations.iter().map(|c| c.node_id.as_str()).collect();
    assert_eq!(ids, vec!["a", "a2"]);
    assert_eq!(tokens, 12);
    assert!(citations.iter().all(|c| c.tool == "get_source"));
}

#[test]
fn questions_are_bounded_and_followups_recognized() {
    assert!(AgentOrchestrator::question_accepted("Où est la connexion ?"));
    assert!(!AgentOrchestrator::question_accepted("   "));
    assert!(!AgentOrchestrator::question_accepted(&"x".repeat(8001)));
    assert!(AgentOrchestrator::is_followup("Combien de tests ?"));
    assert!(!AgentOrchestrator::is_followup("Explique le module auth"));
    assert_eq!(AgentOrchestrator::tool_budget(&limits(1, 1)), 7);
    assert_eq!(AgentOrchestrator::tool_budget(&ContextLimits { max_tool_calls: 0, ..limits(1, 1) }), 0);
}

#[test]
fn flow_and_impact_questions_choose_the_view() {
    let impact = AgentOrchestrator::question_actions("Quel impact sur le flux ?", Some("n"), vec![]);
    assert!(matches!(&impact[..], [UiAction::OpenImpact { node_id }] if node_id == "n"));
    let flow = AgentOrchestrator::question_actions("Trace the login", Some("n"), vec![]);
    assert!(matches!(&flow[..], [UiAction::TraceFlow { node_id }] if node_id == "n"));
    let kept = AgentOrchestrator::question_actions("Bonjour", Some("n"), vec![UiAction::OpenNode { node_id: "m".into() }]);
    assert!(matches!(&kept[..], [UiAction::OpenNode { node_id }] if node_id == "m"));
}

#[test]
fn specialists_follow_the_question() {
    assert_eq!(route_specialists("Y a-t-il une faille XSS ?"), vec!["SecurityAgent".to_string()]);
    assert_eq!(route_specialists("Bonjour"), vec!["ArchitectureAgent".to_string()]);
}
