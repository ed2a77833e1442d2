use code_atlas::line_analysis::{analyze_dart, collect_imports};
use code_atlas::model::{NodeKind, ProgrammingLanguage, ProjectFile, SourceScope};

fn file(path: &str, language: ProgrammingLanguage) -> ProjectFile {
    ProjectFile { path: path.into(), language, source_scope: SourceScope::Project, hash: String::new() }
}

#[test]
fn typescript_imports_keep_paths_lines_and_names() {
    let source = "import { a } from './lib/auth';\n\nimport 'polyfill';\n";
    let imports = collect_imports(source, &file("src/app.ts", ProgrammingLanguage::TypeScript));
    assert_eq!(imports.len(), 2);
    assert_eq!(imports[0].full_path, "./lib/auth");
    assert_eq!(imports[0].imported_name, "auth");
    assert_eq!(imports[0].line, 1);
    assert_eq!(imports[0].source_path, "src/app.ts");
    assert_eq!(imports[1].full_path, "polyfill");
    assert_eq!(imports[1].line, 3);
    assert!(!imports[1].is_wildcard);
}

#[test]
fn python_and_php_imports_use_groups_and_wildcards() {
    let py = collect_imports("from app.models import User\nimport os.path\n", &file("m.py", ProgrammingLanguage::Python));
    assert_eq!(py.len(), 2);
    assert_eq!(py[0].full_path, "app.models");
    assert_eq!(py[0].imported_name, "User");
    assert_eq!(py[1].imported_name, "path");
    assert_eq!(py[1].line, 2);
    let php = collect_imports("<?php\nuse App\\Service\\Mailer;\nuse Foo\\*;\n", &file("a.php", ProgrammingLanguage::Php));
    assert_eq!(php.len(), 2);
    assert_eq!(php[0].imported_name, "Mailer");
    assert!(php[1].is_wildcard);
    let go = collect_imports("import \"net/http\"\n", &file("main.go", ProgrammingLanguage::Go));
    assert_eq!(go[0].imported_name, "http");
    assert!(collect_imports("import x", &file("a.rs", ProgrammingLanguage::Rust)).is_empty());
}

#[test]
fn dart_declarations_and_imports_are_found_line_by_line() {
    let source = "import 'package:app/screens/home.dart';\nclass HomePage extends StatelessWidget {\n}\nenum Status { on, off }\nvoid main() {\n}\nabstract class Repo {\n}\n";
    let analysis = analyze_dart(source, &file("lib/main.dart", ProgrammingLanguage::Dart)).unwrap();
    let kinds: Vec<(NodeKind, String, usize)> =
        analysis.nodes.iter().map(|n| (n.kind, n.name.clone(), n.start_line.unwrap())).collect();
    assert_eq!(
        kinds,
        vec![
            (NodeKind::Component, "HomePage".to_string(), 2),
            (NodeKind::Enum, "Status".to_string(), 4),
            (NodeKind::Function, "main".to_string(), 5),
            (NodeKind::Class, "Repo".to_string(), 7),
        ]
    );
    assert_eq!(analysis.nodes[1].id, "enum:lib/main.dart:4:Status");
    assert_eq!(analysis.imports.len(), 1);
    assert_eq!(analysis.imports[0].imported_name, "home");
    assert_eq!(analysis.imports[0].full_path, "package:app/screens/home.dart");
    assert!(analysis.calls.is_empty());
}
