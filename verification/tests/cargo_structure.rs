use code_atlas::cargo::{
    detect_target_kind, workspace_info, CargoKind, CargoMetadata, CargoPackageMetadata, CargoTargetKind,
    CargoTargetMetadata,
};

fn target(name: &str, kinds: Vec<CargoKind>, src: &str) -> CargoTargetMetadata {
    CargoTargetMetadata { name: name.into(), kinds, src_path: src.into(), edition: "2021".into() }
}

#[test]
fn first_significant_kind_decides() {
    assert_eq!(detect_target_kind(&target("a", vec![CargoKind::Other, CargoKind::RLib, CargoKind::Bin], "")), CargoTargetKind::Library);
    assert_eq!(detect_target_kind(&target("b", vec![CargoKind::Bin, CargoKind::Lib], "")), CargoTargetKind::Binary);
    assert_eq!(detect_target_kind(&target("c", vec![CargoKind::CustomBuild], "")), CargoTargetKind::BuildScript);
    assert_eq!(detect_target_kind(&target("d", vec![CargoKind::ProcMacro], "")), CargoTargetKind::ProcMacro);
    assert_eq!(detect_target_kind(&target("e", vec![], "")), CargoTargetKind::Unknown);
    assert_eq!(detect_target_kind(&target("f", vec![CargoKind::Other], "")), CargoTargetKind::Unknown);
}

#[test]
fn workspace_paths_are_relative_to_the_project() {
    let metadata = CargoMetadata {
        workspace_root: "/work/atlas".into(),
        target_directory: "/work/atlas/target".into(),
        packages: vec![CargoPackageMetadata {
            id: "atlas 0.1.0".into(),
            name: "atlas".into(),
            version: "0.1.0".into(),
            edition: "2021".into(),
            manifest_path: "/work/atlas/Cargo.toml".into(),
            targets: vec![
                target("atlas", vec![CargoKind::Lib], "/work/atlas/src/lib.rs"),
                target("build-script-build", vec![CargoKind::CustomBuild], "/elsewhere/build.rs"),
            ],
        }],
    };
    let info = workspace_info("/work/atlas", &metadata);
    assert_eq!(info.workspace_root, "/work/atlas");
    let package = &info.packages[0];
    assert_eq!(package.manifest_path, "Cargo.toml");
    assert_eq!(package.targets[0].source_path, "src/lib.rs");
    assert_eq!(package.targets[0].kind, CargoTargetKind::Library);
    assert_eq!(package.targets[1].source_path, "/elsewhere/build.rs");
    assert_eq!(package.targets[1].kind, CargoTargetKind::BuildScript);
}

#[test]
fn only_workspace_members_are_kept() {
    let package = |id: &str| code_atlas::cargo::CargoPackageMetadata {
        id: id.into(),
        name: id.into(),
        version: "0.1.0".into(),
        edition: "2021".into(),
        manifest_path: format!("/w/{id}/Cargo.toml"),
        targets: vec![],
    };
    let kept = code_atlas::cargo::workspace_packages(
        vec![package("a"), package("dep"), package("b")],
        &vec!["b".to_string(), "a".to_string()],
    );
    let ids: Vec<&str> = kept.iter().map(|p| p.id.as_str()).collect();
    assert_eq!(ids, vec!["a", "b"]);
}
