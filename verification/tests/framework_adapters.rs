use code_atlas::findings::SourceText;
use code_atlas::framework::{analyze_flutter, analyze_frameworks, FrameworkAnalysis};
use code_atlas::model::{CodeNode, NodeKind, ProgrammingLanguage, ProjectFile, SourceScope};

fn dart_file(path: &str) -> ProjectFile {
    ProjectFile {
        path: path.into(),
        language: ProgrammingLanguage::Dart,
        source_scope: SourceScope::Project,
        hash: "h".into(),
    }
}

fn widget(id: &str, name: &str) -> CodeNode {
    CodeNode {
        id: id.into(),
        kind: NodeKind::Class,
        name: name.into(),
        path: Some("lib/pages.dart".into()),
        language: None,
        start_line: Some(1),
        end_line: Some(5),
        owner: None,
        source_scope: SourceScope::Project,
    }
}

const ROUTER: &str = "final router = GoRouter(routes: [\n  GoRoute(path: '/home', builder: (context, state) => HomePage()),\n]);\n";

#[test]
fn go_route_renders_its_only_page() {
    let mut out = FrameworkAnalysis::new();
    let symbols = vec![widget("home", "HomePage"), widget("other", "OtherPage")];
    analyze_flutter(&dart_file("lib/router.dart"), ROUTER, &symbols, &mut out);
    assert_eq!(out.nodes.len(), 1);
    assert_eq!(out.nodes[0].id, "route:lib/router.dart:2:/home");
    assert_eq!(out.edges.len(), 1);
    assert_eq!(out.edges[0].source_id, "route:lib/router.dart:2:/home");
    assert_eq!(out.edges[0].target_id, "home");
}

#[test]
fn go_route_with_an_ambiguous_page_renders_nothing() {
    let mut out = FrameworkAnalysis::new();
    let symbols = vec![widget("home-a", "HomePage"), widget("home-b", "HomePage")];
    analyze_flutter(&dart_file("lib/router.dart"), ROUTER, &symbols, &mut out);
    assert_eq!(out.nodes.len(), 1);
    assert!(out.edges.is_empty());
}

#[test]
fn non_dart_files_are_left_alone() {
    let mut out = FrameworkAnalysis::new();
    let symbols = vec![widget("home", "HomePage")];
    analyze_flutter(&dart_file("lib/router.ts"), ROUTER, &symbols, &mut out);
    assert!(out.nodes.is_empty());
    assert!(out.edges.is_empty());
}

#[test]
fn framework_analysis_keeps_the_page_edges_of_each_file() {
    let files = vec![dart_file("lib/router.dart"), dart_file("lib/unread.dart")];
    let symbols = vec![widget("home", "HomePage")];
    let sources = vec![SourceText { path: "lib/router.dart".into(), text: ROUTER.into() }];
    let result = analyze_frameworks(&files, &symbols, &sources, &vec![], false);
    assert_eq!(result.nodes.len(), 1);
    assert_eq!(result.edges.len(), 1);
    assert_eq!(result.edges[0].target_id, "home");
}
