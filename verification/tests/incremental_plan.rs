use code_atlas::engine::plan_incremental;
use code_atlas::model::{ProgrammingLanguage, ProjectFile, SourceScope};

fn file(path: &str, hash: &str) -> ProjectFile {
    ProjectFile {
        path: path.into(),
        language: ProgrammingLanguage::Rust,
        source_scope: SourceScope::Project,
        hash: hash.into(),
    }
}

#[test]
fn unchanged_files_reuse_their_analysis() {
    let previous = vec![file("src/a.rs", "h1"), file("src/b.rs", "h2"), file("src/c.rs", "h3")];
    let cached = vec!["src/a.rs".to_string(), "src/b.rs".to_string()];
    let current = vec![file("src/a.rs", "h1"), file("src/b.rs", "changed"), file("src/c.rs", "h3"), file("src/d.rs", "h4")];
    let plan = plan_incremental(&previous, &cached, &current);
    assert_eq!(plan.reused, vec![0]);
    assert_eq!(plan.to_parse, vec![1, 2, 3]);
}

#[test]
fn a_first_analysis_parses_everything() {
    let current = vec![file("src/a.rs", "h1"), file("src/b.rs", "h2")];
    let plan = plan_incremental(&vec![], &vec![], &current);
    assert!(plan.reused.is_empty());
    assert_eq!(plan.to_parse, vec![0, 1]);
}
