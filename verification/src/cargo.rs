//! The Cargo structure of a Rust project: its workspace packages and their targets, as
//! Cargo's metadata describes them.
use vstd::prelude::*;

use crate::util::make_relative_path;

verus! {

/// A kind Cargo gives a target.
#[derive(Clone, Copy, Debug, PartialEq, Eq, Structural)]
pub enum CargoKind {
    Bin,
    Lib,
    RLib,
    DyLib,
    CDyLib,
    StaticLib,
    ProcMacro,
    Test,
    Example,
    Bench,
    CustomBuild,
    /// A kind this library does not distinguish.
    Other,
}

/// The main kind of a target.
#[derive(Clone, Copy, Debug, PartialEq, Eq, Structural)]
pub enum CargoTargetKind {
    Binary,
    Library,
    ProcMacro,
    Test,
    Example,
    Bench,
    BuildScript,
    Unknown,
}

/// A target as Cargo's metadata describes it.
#[derive(Clone, Debug)]
pub struct CargoTargetMetadata {
    pub name: String,
    pub kinds: Vec<CargoKind>,
    pub src_path: String,
    pub edition: String,
}

/// A workspace package as Cargo's metadata describes it.
#[derive(Clone, Debug)]
pub struct CargoPackageMetadata {
    pub id: String,
    pub name: String,
    pub version: String,
    pub edition: String,
    pub manifest_path: String,
    pub targets: Vec<CargoTargetMetadata>,
}

/// Cargo's metadata of a workspace: its root, target directory and member packages.
#[derive(Clone, Debug)]
pub struct CargoMetadata {
    pub workspace_root: String,
    pub target_directory: String,
    pub packages: Vec<CargoPackageMetadata>,
}

/// The packages among the first `n` whose id names a workspace member, in order.
pub open spec fn member_packages(all: Seq<CargoPackageMetadata>, members: Seq<Seq<char>>, n: int) -> Seq<CargoPackageMetadata>
    decreases n,
{
    if n <= 0 {
        seq![]
    } else {
        member_packages(all, members, n - 1) + if members.contains(all[n - 1].id@) { seq![all[n - 1]] } else { seq![] }
    }
}

/// Keeps, in order, the packages of Cargo's metadata that are members of the workspace.
pub fn workspace_packages(all: Vec<CargoPackageMetadata>, members: &Vec<String>) -> (res: Vec<CargoPackageMetadata>)
    ensures
        res@ == member_packages(all@, crate::text::views(members@), all@.len() as int),
{
    let ghost everything = all@;
    let total = all.len();
    let mut input = all;
    let mut out: Vec<CargoPackageMetadata> = Vec::new();
    let mut k: usize = 0;
    assert(input@ =~= everything.subrange(0, everything.len() as int));
    assert(out@ =~= member_packages(everything, crate::text::views(members@), 0));
    while input.len() > 0
        invariant
            k + input@.len() == everything.len(),
            everything.len() == total,
            input@ == everything.subrange(k as int, everything.len() as int),
            out@ == member_packages(everything, crate::text::views(members@), k as int),
        decreases input@.len(),
    {
        let p = input.remove(0);
        assert(p == everything[k as int]);
        assert(input@ =~= everything.subrange(k + 1, everything.len() as int));
        let ghost before = out@;
        if crate::text::holds(members, p.id.as_str()) {
            out.push(p);
        }
        assert(out@ =~= member_packages(everything, crate::text::views(members@), k + 1));
        k = k + 1;
    }
    out
}

/// A target of the analysed project.
#[derive(Clone, Debug)]
pub struct CargoTargetInfo {
    pub name: String,
    pub kind: CargoTargetKind,
    pub source_path: String,
    pub edition: String,
}

/// A package of the analysed project.
#[derive(Clone, Debug)]
pub struct CargoPackageInfo {
    pub id: String,
    pub name: String,
    pub version: String,
    pub edition: String,
    pub manifest_path: String,
    pub targets: Vec<CargoTargetInfo>,
}

/// The Cargo workspace of the analysed project.
#[derive(Clone, Debug)]
pub struct CargoWorkspaceInfo {
    pub workspace_root: String,
    pub target_directory: String,
    pub packages: Vec<CargoPackageInfo>,
}

/// The main kind a Cargo kind stands for, if it stands for one.
pub open spec fn main_kind(k: CargoKind) -> Option<CargoTargetKind> {
    match k {
        CargoKind::Bin => Some(CargoTargetKind::Binary),
        CargoKind::Lib | CargoKind::RLib | CargoKind::DyLib | CargoKind::CDyLib | CargoKind::StaticLib => Some(
            CargoTargetKind::Library,
        ),
        CargoKind::ProcMacro => Some(CargoTargetKind::ProcMacro),
        CargoKind::Test => Some(CargoTargetKind::Test),
        CargoKind::Example => Some(CargoTargetKind::Example),
        CargoKind::Bench => Some(CargoTargetKind::Bench),
        CargoKind::CustomBuild => Some(CargoTargetKind::BuildScript),
        CargoKind::Other => None,
    }
}

/// The main kind of the first of `kinds` that stands for one; unknown when none does.
pub open spec fn spec_target_kind(kinds: Seq<CargoKind>) -> CargoTargetKind
    decreases kinds.len(),
{
    if kinds.len() == 0 {
        CargoTargetKind::Unknown
    } else {
        match main_kind(kinds[0]) {
            Some(k) => k,
            None => spec_target_kind(kinds.drop_first()),
        }
    }
}

fn main_kind_of(k: CargoKind) -> (res: Option<CargoTargetKind>)
    ensures
        res == main_kind(k),
{
    match k {
        CargoKind::Bin => Some(CargoTargetKind::Binary),
        CargoKind::Lib | CargoKind::RLib | CargoKind::DyLib | CargoKind::CDyLib | CargoKind::StaticLib => Some(
            CargoTargetKind::Library,
        ),
        CargoKind::ProcMacro => Some(CargoTargetKind::ProcMacro),
        CargoKind::Test => Some(CargoTargetKind::Test),
        CargoKind::Example => Some(CargoTargetKind::Example),
        CargoKind::Bench => Some(CargoTargetKind::Bench),
        CargoKind::CustomBuild => Some(CargoTargetKind::BuildScript),
        CargoKind::Other => None,
    }
}

/// The most significant kind of a target: that of its first kind Cargo names as a binary,
/// a library (of any crate type), a procedural macro, a test, an example, a benchmark or a
/// build script.
pub fn detect_target_kind(target: &CargoTargetMetadata) -> (res: CargoTargetKind)
    ensures
        res == spec_target_kind(target.kinds@),
{
    let mut k: usize = 0;
    assert(target.kinds@.subrange(0, target.kinds@.len() as int) =~= target.kinds@);
    while k < target.kinds.len()
        invariant
            k <= target.kinds@.len(),
            spec_target_kind(target.kinds@) == spec_target_kind(target.kinds@.subrange(k as int, target.kinds@.len() as int)),
        decreases target.kinds.len() - k,
    {
        let ghost rest = target.kinds@.subrange(k as int, target.kinds@.len() as int);
        assert(rest.drop_first() =~= target.kinds@.subrange(k + 1, target.kinds@.len() as int));
        assert(rest[0] == target.kinds@[k as int]);
        match main_kind_of(target.kinds[k]) {
            Some(kind) => {
                return kind;
            },
            None => {},
        }
        k = k + 1;
    }
    assert(target.kinds@.subrange(k as int, target.kinds@.len() as int) =~= Seq::<CargoKind>::empty());
    CargoTargetKind::Unknown
}

/// A target of the project: its name, main kind, source path relative to the project root
/// and edition.
pub fn convert_target(target: &CargoTargetMetadata, project_root: &str) -> (res: CargoTargetInfo)
    ensures
        res.name@ == target.name@,
        res.kind == spec_target_kind(target.kinds@),
        res.edition@ == target.edition@,
{
    CargoTargetInfo {
        name: target.name.clone(),
        kind: detect_target_kind(target),
        source_path: make_relative_path(project_root, target.src_path.as_str()),
        edition: target.edition.clone(),
    }
}

/// `t` is the target `m` of the project.
pub open spec fn target_converted(m: CargoTargetMetadata, t: CargoTargetInfo) -> bool {
    t.name@ == m.name@ && t.kind == spec_target_kind(m.kinds@) && t.edition@ == m.edition@
}

/// `p` is the package `m` of the project, its targets in order.
pub open spec fn package_converted(m: CargoPackageMetadata, p: CargoPackageInfo) -> bool {
    &&& p.id@ == m.id@
    &&& p.name@ == m.name@
    &&& p.version@ == m.version@
    &&& p.edition@ == m.edition@
    &&& p.targets@.len() == m.targets@.len()
    &&& forall|k: int| 0 <= k < p.targets@.len() ==> target_converted(m.targets@[k], #[trigger] p.targets@[k])
}

fn convert_package(package: &CargoPackageMetadata, project_root: &str) -> (res: CargoPackageInfo)
    ensures
        package_converted(*package, res),
{
    let mut targets: Vec<CargoTargetInfo> = Vec::new();
    let mut k: usize = 0;
    while k < package.targets.len()
        invariant
            k <= package.targets@.len(),
            targets@.len() == k,
            forall|j: int| 0 <= j < k ==> target_converted(package.targets@[j], #[trigger] targets@[j]),
        decreases package.targets.len() - k,
    {
        targets.push(convert_target(&package.targets[k], project_root));
        k = k + 1;
    }
    CargoPackageInfo {
        id: package.id.clone(),
        name: package.name.clone(),
        version: package.version.clone(),
        edition: package.edition.clone(),
        manifest_path: make_relative_path(project_root, package.manifest_path.as_str()),
        targets,
    }
}

/// The Cargo workspace of a project from Cargo's metadata of its workspace packages: each
/// package and each of its targets, in order, with paths relative to the project root.
pub fn workspace_info(project_root: &str, metadata: &CargoMetadata) -> (res: CargoWorkspaceInfo)
    ensures
        res.workspace_root@ == metadata.workspace_root@,
        res.target_directory@ == metadata.target_directory@,
        res.packages@.len() == metadata.packages@.len(),
        forall|k: int| 0 <= k < res.packages@.len() ==> package_converted(metadata.packages@[k], #[trigger] res.packages@[k]),
{
    let mut packages: Vec<CargoPackageInfo> = Vec::new();
    let mut k: usize = 0;
    while k < metadata.packages.len()
        invariant
            k <= metadata.packages@.len(),
            packages@.len() == k,
            forall|j: int| 0 <= j < k ==> package_converted(metadata.packages@[j], #[trigger] packages@[j]),
        decreases metadata.packages.len() - k,
    {
        packages.push(convert_package(&metadata.packages[k], project_root));
        k = k + 1;
    }
    CargoWorkspaceInfo {
        workspace_root: metadata.workspace_root.clone(),
        target_directory: metadata.target_directory.clone(),
        packages,
    }
}

} // verus!
