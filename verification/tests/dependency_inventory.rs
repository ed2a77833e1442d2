use code_atlas::dependencies::{inventory, manifest_candidates, ManifestRead};
use code_atlas::model::{CodeNode, NodeKind, ProjectGraph, SourceScope};

fn graph() -> ProjectGraph {
    ProjectGraph::new(
        ".".into(),
        vec![CodeNode {
            id: "main".into(),
            kind: NodeKind::Function,
            name: "main".into(),
            path: Some("main.py".into()),
            language: None,
            start_line: None,
            end_line: None,
            owner: None,
            source_scope: SourceScope::Project,
        }],
        vec![],
        vec![],
        vec![],
        vec![],
    )
}

fn reads_for(graph: &ProjectGraph, files: &[(&str, ManifestRead)]) -> Vec<ManifestRead> {
    manifest_candidates(graph)
        .iter()
        .map(|candidate| {
            files
                .iter()
                .find(|(name, _)| candidate == name)
                .map(|(_, read)| match read {
                    ManifestRead::Text(t) => ManifestRead::Text(t.clone()),
                    ManifestRead::Failed(e) => ManifestRead::Failed(e.clone()),
                    ManifestRead::OutsideProject => ManifestRead::OutsideProject,
                    ManifestRead::Missing => ManifestRead::Missing,
                })
                .unwrap_or(ManifestRead::Missing)
        })
        .collect()
}

#[test]
fn inventory_lists_each_dependency_once_in_order() {
    let g = graph();
    let reads = reads_for(
        &g,
        &[
            ("requirements.txt", ManifestRead::Text("requests==2.31\nflask>=3\nrequests==2.31\n".into())),
            ("package.json", ManifestRead::Text("{\"dependencies\":{\"zod\":\"^3\",\"axios\":\"1.6\"}}".into())),
            ("go.mod", ManifestRead::OutsideProject),
        ],
    );
    let result = inventory(&g, true, &reads);
    let keys: Vec<(String, String)> = result.items.iter().map(|d| (d.ecosystem.clone(), d.name.clone())).collect();
    let mut sorted = keys.clone();
    sorted.sort();
    assert_eq!(keys, sorted);
    let mut ids: Vec<String> = result.items.iter().map(|d| d.id.clone()).collect();
    let count = ids.len();
    ids.sort();
    ids.dedup();
    assert_eq!(ids.len(), count);
    assert!(keys.contains(&("python".to_string(), "requests".to_string())));
    assert!(result.warnings.iter().any(|w| w.contains("lien hors projet")));
}

#[test]
fn unreadable_root_gives_one_warning() {
    let result = inventory(&graph(), false, &vec![]);
    assert!(result.items.is_empty());
    assert_eq!(result.warnings, vec!["Racine du projet inaccessible".to_string()]);
}
