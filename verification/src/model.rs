//! The project graph: code nodes, typed relations and the indexes used to navigate them.
use vstd::prelude::*;

verus! {

/// Kind of a node of the project graph.
#[derive(Clone, Copy, Debug, PartialEq, Eq, Structural)]
pub enum NodeKind {
    Project,
    Workspace,
    Package,
    Crate,
    Module,
    File,
    Function,
    Method,
    Constructor,
    Struct,
    Enum,
    Trait,
    Interface,
    TypeAlias,
    Constant,
    Class,
    Component,
    Page,
    Route,
    ApiEndpoint,
    Provider,
    DatabaseTable,
    Service,
    Repository,
    Database,
    Model,
    Entity,
    Event,
    Queue,
    WebSocket,
    Config,
    Environment,
    Infrastructure,
    EntryPoint,
    Handler,
    Controller,
    Worker,
    Job,
    ExternalService,
    Template,
    Command,
    Cli,
}

/// Kind of a relation between two nodes.
#[derive(Clone, Copy, Debug, PartialEq, Eq, Structural)]
pub enum RelationKind {
    Contains,
    Declares,
    EntryPoint,
    Imports,
    Exports,
    Calls,
    Uses,
    HasMethod,
    Extends,
    Implements,
    Returns,
    Creates,
    Reads,
    Writes,
    Renders,
    RoutesTo,
    HandledBy,
    DependsOn,
    Emits,
    Listens,
}

/// Where the code of a node comes from.
#[derive(Clone, Copy, Debug, PartialEq, Eq, Structural)]
pub enum SourceScope {
    Project,
    WorkspacePackage,
    ExternalDependency,
    Generated,
}

/// Language of a source file.
#[derive(Clone, Copy, Debug, PartialEq, Eq, Structural)]
pub enum ProgrammingLanguage {
    Rust,
    TypeScript,
    JavaScript,
    Php,
    Dart,
    Python,
    Go,
    Other,
}

impl SourceScope {
    /// First-party code: the project itself or a package of its workspace.
    pub open spec fn spec_library_eligible(self) -> bool {
        self == SourceScope::Project || self == SourceScope::WorkspacePackage
    }

    pub fn library_eligible(self) -> (res: bool)
        ensures
            res == self.spec_library_eligible(),
    {
        match self {
            SourceScope::Project | SourceScope::WorkspacePackage => true,
            _ => false,
        }
    }
}

impl ProgrammingLanguage {
    pub open spec fn spec_name(self) -> Seq<char> {
        match self {
            ProgrammingLanguage::Rust => "Rust"@,
            ProgrammingLanguage::TypeScript => "TypeScript"@,
            ProgrammingLanguage::JavaScript => "JavaScript"@,
            ProgrammingLanguage::Php => "PHP"@,
            ProgrammingLanguage::Dart => "Dart"@,
            ProgrammingLanguage::Python => "Python"@,
            ProgrammingLanguage::Go => "Go"@,
            ProgrammingLanguage::Other => "Other"@,
        }
    }

    pub fn as_str(self) -> (res: &'static str)
        ensures
            res@ == self.spec_name(),
    {
        match self {
            ProgrammingLanguage::Rust => "Rust",
            ProgrammingLanguage::TypeScript => "TypeScript",
            ProgrammingLanguage::JavaScript => "JavaScript",
            ProgrammingLanguage::Php => "PHP",
            ProgrammingLanguage::Dart => "Dart",
            ProgrammingLanguage::Python => "Python",
            ProgrammingLanguage::Go => "Go",
            ProgrammingLanguage::Other => "Other",
        }
    }
}

impl NodeKind {
    /// The kind's name as it appears in exports and documentation.
    pub open spec fn spec_name(self) -> Seq<char> {
        match self {
            NodeKind::Project => "Project"@,
            NodeKind::Workspace => "Workspace"@,
            NodeKind::Package => "Package"@,
            NodeKind::Crate => "Crate"@,
            NodeKind::Module => "Module"@,
            NodeKind::File => "File"@,
            NodeKind::Function => "Function"@,
            NodeKind::Method => "Method"@,
            NodeKind::Constructor => "Constructor"@,
            NodeKind::Struct => "Struct"@,
            NodeKind::Enum => "Enum"@,
            NodeKind::Trait => "Trait"@,
            NodeKind::Interface => "Interface"@,
            NodeKind::TypeAlias => "TypeAlias"@,
            NodeKind::Constant => "Constant"@,
            NodeKind::Class => "Class"@,
            NodeKind::Component => "Component"@,
            NodeKind::Page => "Page"@,
            NodeKind::Route => "Route"@,
            NodeKind::ApiEndpoint => "ApiEndpoint"@,
            NodeKind::Provider => "Provider"@,
            NodeKind::DatabaseTable => "DatabaseTable"@,
            NodeKind::Service => "Service"@,
            NodeKind::Repository => "Repository"@,
            NodeKind::Database => "Database"@,
            NodeKind::Model => "Model"@,
            NodeKind::Entity => "Entity"@,
            NodeKind::Event => "Event"@,
            NodeKind::Queue => "Queue"@,
            NodeKind::WebSocket => "WebSocket"@,
            NodeKind::Config => "Config"@,
            NodeKind::Environment => "Environment"@,
            NodeKind::Infrastructure => "Infrastructure"@,
            NodeKind::EntryPoint => "EntryPoint"@,
            NodeKind::Handler => "Handler"@,
            NodeKind::Controller => "Controller"@,
            NodeKind::Worker => "Worker"@,
            NodeKind::Job => "Job"@,
            NodeKind::ExternalService => "ExternalService"@,
            NodeKind::Template => "Template"@,
            NodeKind::Command => "Command"@,
            NodeKind::Cli => "Cli"@,
        }
    }

    pub fn as_str(self) -> (res: &'static str)
        ensures
            res@ == self.spec_name(),
    {
        match self {
            NodeKind::Project => "Project",
            NodeKind::Workspace => "Workspace",
            NodeKind::Package => "Package",
            NodeKind::Crate => "Crate",
            NodeKind::Module => "Module",
            NodeKind::File => "File",
            NodeKind::Function => "Function",
            NodeKind::Method => "Method",
            NodeKind::Constructor => "Constructor",
            NodeKind::Struct => "Struct",
            NodeKind::Enum => "Enum",
            NodeKind::Trait => "Trait",
            NodeKind::Interface => "Interface",
            NodeKind::TypeAlias => "TypeAlias",
            NodeKind::Constant => "Constant",
            NodeKind::Class => "Class",
            NodeKind::Component => "Component",
            NodeKind::Page => "Page",
            NodeKind::Route => "Route",
            NodeKind::ApiEndpoint => "ApiEndpoint",
            NodeKind::Provider => "Provider",
            NodeKind::DatabaseTable => "DatabaseTable",
            NodeKind::Service => "Service",
            NodeKind::Repository => "Repository",
            NodeKind::Database => "Database",
            NodeKind::Model => "Model",
            NodeKind::Entity => "Entity",
            NodeKind::Event => "Event",
            NodeKind::Queue => "Queue",
            NodeKind::WebSocket => "WebSocket",
            NodeKind::Config => "Config",
            NodeKind::Environment => "Environment",
            NodeKind::Infrastructure => "Infrastructure",
            NodeKind::EntryPoint => "EntryPoint",
            NodeKind::Handler => "Handler",
            NodeKind::Controller => "Controller",
            NodeKind::Worker => "Worker",
            NodeKind::Job => "Job",
            NodeKind::ExternalService => "ExternalService",
            NodeKind::Template => "Template",
            NodeKind::Command => "Command",
            NodeKind::Cli => "Cli",
        }
    }
}

impl RelationKind {
    /// The relation's name in upper snake case, as in exports.
    pub open spec fn spec_name(self) -> Seq<char> {
        match self {
            RelationKind::Contains => "CONTAINS"@,
            RelationKind::Declares => "DECLARES"@,
            RelationKind::EntryPoint => "ENTRY_POINT"@,
            RelationKind::Imports => "IMPORTS"@,
            RelationKind::Exports => "EXPORTS"@,
            RelationKind::Calls => "CALLS"@,
            RelationKind::Uses => "USES"@,
            RelationKind::HasMethod => "HAS_METHOD"@,
            RelationKind::Extends => "EXTENDS"@,
            RelationKind::Implements => "IMPLEMENTS"@,
            RelationKind::Returns => "RETURNS"@,
            RelationKind::Creates => "CREATES"@,
            RelationKind::Reads => "READS"@,
            RelationKind::Writes => "WRITES"@,
            RelationKind::Renders => "RENDERS"@,
            RelationKind::RoutesTo => "ROUTES_TO"@,
            RelationKind::HandledBy => "HANDLED_BY"@,
            RelationKind::DependsOn => "DEPENDS_ON"@,
            RelationKind::Emits => "EMITS"@,
            RelationKind::Listens => "LISTENS"@,
        }
    }

    /// The relation's name in lower snake case, as accepted by relation filters.
    pub open spec fn spec_filter_name(self) -> Seq<char> {
        match self {
            RelationKind::Contains => "contains"@,
            RelationKind::Declares => "declares"@,
            RelationKind::EntryPoint => "entry_point"@,
            RelationKind::Imports => "imports"@,
            RelationKind::Exports => "exports"@,
            RelationKind::Calls => "calls"@,
            RelationKind::Uses => "uses"@,
            RelationKind::HasMethod => "has_method"@,
            RelationKind::Extends => "extends"@,
            RelationKind::Implements => "implements"@,
            RelationKind::Returns => "returns"@,
            RelationKind::Creates => "creates"@,
            RelationKind::Reads => "reads"@,
            RelationKind::Writes => "writes"@,
            RelationKind::Renders => "renders"@,
            RelationKind::RoutesTo => "routes_to"@,
            RelationKind::HandledBy => "handled_by"@,
            RelationKind::DependsOn => "depends_on"@,
            RelationKind::Emits => "emits"@,
            RelationKind::Listens => "listens"@,
        }
    }

    pub fn as_str(self) -> (res: &'static str)
        ensures
            res@ == self.spec_name(),
    {
        match self {
            RelationKind::Contains => "CONTAINS",
            RelationKind::Declares => "DECLARES",
            RelationKind::EntryPoint => "ENTRY_POINT",
            RelationKind::Imports => "IMPORTS",
            RelationKind::Exports => "EXPORTS",
            RelationKind::Calls => "CALLS",
            RelationKind::Uses => "USES",
            RelationKind::HasMethod => "HAS_METHOD",
            RelationKind::Extends => "EXTENDS",
            RelationKind::Implements => "IMPLEMENTS",
            RelationKind::Returns => "RETURNS",
            RelationKind::Creates => "CREATES",
            RelationKind::Reads => "READS",
            RelationKind::Writes => "WRITES",
            RelationKind::Renders => "RENDERS",
            RelationKind::RoutesTo => "ROUTES_TO",
            RelationKind::HandledBy => "HANDLED_BY",
            RelationKind::DependsOn => "DEPENDS_ON",
            RelationKind::Emits => "EMITS",
            RelationKind::Listens => "LISTENS",
        }
    }

    pub fn filter_name(self) -> (res: &'static str)
        ensures
            res@ == self.spec_filter_name(),
    {
        match self {
            RelationKind::Contains => "contains",
            RelationKind::Declares => "declares",
            RelationKind::EntryPoint => "entry_point",
            RelationKind::Imports => "imports",
            RelationKind::Exports => "exports",
            RelationKind::Calls => "calls",
            RelationKind::Uses => "uses",
            RelationKind::HasMethod => "has_method",
            RelationKind::Extends => "extends",
            RelationKind::Implements => "implements",
            RelationKind::Returns => "returns",
            RelationKind::Creates => "creates",
            RelationKind::Reads => "reads",
            RelationKind::Writes => "writes",
            RelationKind::Renders => "renders",
            RelationKind::RoutesTo => "routes_to",
            RelationKind::HandledBy => "handled_by",
            RelationKind::DependsOn => "depends_on",
            RelationKind::Emits => "emits",
            RelationKind::Listens => "listens",
        }
    }
}

/// A symbol, file or architectural element of an analyzed project.
#[derive(Clone, Debug)]
pub struct CodeNode {
    pub id: String,
    pub kind: NodeKind,
    pub name: String,
    pub path: Option<String>,
    pub language: Option<ProgrammingLanguage>,
    pub start_line: Option<usize>,
    pub end_line: Option<usize>,
    pub owner: Option<String>,
    pub source_scope: SourceScope,
}

/// A file of the scanned project: its relative path, language, origin and content hash.
#[derive(Clone, Debug)]
pub struct ProjectFile {
    pub path: String,
    pub language: ProgrammingLanguage,
    pub source_scope: SourceScope,
    pub hash: String,
}

/// A directed, typed relation between two nodes.
#[derive(Clone, Debug)]
pub struct CodeEdge {
    pub id: String,
    pub source_id: String,
    pub target_id: String,
    pub relation: RelationKind,
}

/// An import statement observed in a source file.
#[derive(Clone, Debug)]
pub struct ImportReference {
    pub source_path: String,
    pub line: usize,
    pub full_path: String,
    pub imported_name: String,
    pub alias: Option<String>,
    pub is_wildcard: bool,
    pub raw: String,
}

/// A Rust `mod` declaration and the file it resolves to.
#[derive(Clone, Debug)]
pub struct ModuleReference {
    pub mod_path: String,
    pub declared_in: String,
    pub target_path: Option<String>,
    pub line: usize,
}

/// A call whose target could not be resolved to a unique node.
#[derive(Clone, Debug)]
pub struct CallReference {
    pub caller_id: String,
    pub path: String,
    pub target_name: String,
    pub qualifier: Option<String>,
    pub line: usize,
}

/// The analyzed project: nodes, relations, and the references left unresolved.
#[derive(Clone, Debug)]
pub struct ProjectGraph {
    pub root: String,
    pub nodes: Vec<CodeNode>,
    pub edges: Vec<CodeEdge>,
    pub imports: Vec<ImportReference>,
    pub modules: Vec<ModuleReference>,
    pub unresolved_calls: Vec<CallReference>,
}

/// Exact copy of an optional string.
pub fn copy_opt_string(value: &Option<String>) -> (res: Option<String>)
    ensures
        res == *value,
{
    match value {
        Some(s) => Some(s.clone()),
        None => None,
    }
}

/// Equality of two string slices, compared character by character.
#[verifier::external_body]
pub(crate) fn str_equal(a: &str, b: &str) -> (res: bool)
    ensures
        res == (a@ == b@),
{
    a == b
}

impl CodeNode {
    /// A field-by-field copy of the node.
    pub fn duplicate(&self) -> (res: CodeNode)
        ensures
            res == *self,
    {
        CodeNode {
            id: self.id.clone(),
            kind: self.kind,
            name: self.name.clone(),
            path: copy_opt_string(&self.path),
            language: self.language,
            start_line: self.start_line,
            end_line: self.end_line,
            owner: copy_opt_string(&self.owner),
            source_scope: self.source_scope,
        }
    }
}

impl CodeEdge {
    /// A field-by-field copy of the edge.
    pub fn duplicate(&self) -> (res: CodeEdge)
        ensures
            res == *self,
    {
        CodeEdge {
            id: self.id.clone(),
            source_id: self.source_id.clone(),
            target_id: self.target_id.clone(),
            relation: self.relation,
        }
    }

    /// The id of the edge of a relation between two nodes.
    pub open spec fn spec_id(source_id: Seq<char>, target_id: Seq<char>, relation: RelationKind) -> Seq<char> {
        source_id + "-"@ + relation.spec_name() + "->"@ + target_id
    }

    /// An edge of the given relation; its id is built from both ends and the relation.
    pub fn new(source_id: String, target_id: String, relation: RelationKind) -> (res: CodeEdge)
        ensures
            res.source_id == source_id,
            res.target_id == target_id,
            res.relation == relation,
            res.id@ == CodeEdge::spec_id(source_id@, target_id@, relation),
    {
        let mut id = source_id.clone();
        id.append("-");
        id.append(relation.as_str());
        id.append("->");
        id.append(target_id.as_str());
        CodeEdge { id, source_id, target_id, relation }
    }
}

/// `i` is the first position of a node whose id is `id`.
pub open spec fn first_node_with_id(nodes: Seq<CodeNode>, id: Seq<char>, i: int) -> bool {
    &&& 0 <= i < nodes.len()
    &&& nodes[i].id@ == id
    &&& forall|j: int| 0 <= j < i ==> nodes[j].id@ != id
}

impl ProjectGraph {
    pub fn new(
        root: String,
        nodes: Vec<CodeNode>,
        edges: Vec<CodeEdge>,
        imports: Vec<ImportReference>,
        modules: Vec<ModuleReference>,
        unresolved_calls: Vec<CallReference>,
    ) -> (res: ProjectGraph)
        ensures
            res.root == root,
            res.nodes == nodes,
            res.edges == edges,
            res.imports == imports,
            res.modules == modules,
            res.unresolved_calls == unresolved_calls,
    {
        ProjectGraph { root, nodes, edges, imports, modules, unresolved_calls }
    }

    /// Some node carries the id.
    pub open spec fn has_node(&self, id: Seq<char>) -> bool {
        exists|i: int| 0 <= i < self.nodes@.len() && self.nodes@[i].id@ == id
    }

    /// Position of the node an id designates: the first node carrying it.
    pub open spec fn node_index(&self, id: Seq<char>) -> int {
        choose|i: int| first_node_with_id(self.nodes@, id, i)
    }

    /// Position of the node carrying `id`, if any: the first such node.
    pub fn find_node_index(&self, id: &str) -> (res: Option<usize>)
        ensures
            match res {
                Some(i) => first_node_with_id(self.nodes@, id@, i as int)
                    && i as int == self.node_index(id@) && self.has_node(id@),
                None => !self.has_node(id@),
            },
    {
        let mut i: usize = 0;
        while i < self.nodes.len()
            invariant
                i <= self.nodes@.len(),
                forall|j: int| 0 <= j < i ==> self.nodes@[j].id@ != id@,
            decreases self.nodes.len() - i,
        {
            if str_equal(self.nodes[i].id.as_str(), id) {
                proof {
                    lemma_first_node_unique(self.nodes@, id@, i as int);
                }
                return Some(i);
            }
            i = i + 1;
        }
        None
    }

    /// The node carrying `id`, if any.
    pub fn find_node(&self, id: &str) -> (res: Option<&CodeNode>)
        ensures
            match res {
                Some(n) => self.has_node(id@) && *n == self.nodes@[self.node_index(id@)],
                None => !self.has_node(id@),
            },
    {
        match self.find_node_index(id) {
            Some(i) => Some(&self.nodes[i]),
            None => None,
        }
    }

    /// Positions, in order, of the edges leaving the node `id`.
    pub fn outgoing_edges(&self, id: &str) -> (res: Vec<usize>)
        ensures
            forall|k: int| 0 <= k < res@.len() ==> res@[k] < self.edges@.len()
                && self.edges@[res@[k] as int].source_id@ == id@,
            forall|e: int| 0 <= e < self.edges@.len() && self.edges@[e].source_id@ == id@
                ==> res@.contains(e as usize),
            forall|a: int, b: int| 0 <= a < b < res@.len() ==> res@[a] < res@[b],
            res@ == edge_positions_from(self.edges@, id@, self.edges@.len() as int),
    {
        let mut out: Vec<usize> = Vec::new();
        let mut i: usize = 0;
        while i < self.edges.len()
            invariant
                i <= self.edges@.len(),
                out@ == edge_positions_from(self.edges@, id@, i as int),
                forall|k: int| 0 <= k < out@.len() ==> out@[k] < i
                    && self.edges@[out@[k] as int].source_id@ == id@,
                forall|e: int| 0 <= e < i && self.edges@[e].source_id@ == id@
                    ==> out@.contains(e as usize),
                forall|a: int, b: int| 0 <= a < b < out@.len() ==> out@[a] < out@[b],
            decreases self.edges.len() - i,
        {
            if str_equal(self.edges[i].source_id.as_str(), id) {
                let ghost before = out@;
                out.push(i);
                assert(out@[out@.len() - 1] == i);
                assert forall|x: usize| before.contains(x) implies out@.contains(x) by {
                    let k = choose|k: int| 0 <= k < before.len() && before[k] == x;
                    assert(out@[k] == x);
                }
            }
            i = i + 1;
        }
        out
    }

    /// Positions, in order, of the edges entering the node `id`.
    pub fn incoming_edges(&self, id: &str) -> (res: Vec<usize>)
        ensures
            forall|k: int| 0 <= k < res@.len() ==> res@[k] < self.edges@.len()
                && self.edges@[res@[k] as int].target_id@ == id@,
            forall|e: int| 0 <= e < self.edges@.len() && self.edges@[e].target_id@ == id@
                ==> res@.contains(e as usize),
            forall|a: int, b: int| 0 <= a < b < res@.len() ==> res@[a] < res@[b],
            res@ == edge_positions_to(self.edges@, id@, self.edges@.len() as int),
    {
        let mut out: Vec<usize> = Vec::new();
        let mut i: usize = 0;
        while i < self.edges.len()
            invariant
                i <= self.edges@.len(),
                out@ == edge_positions_to(self.edges@, id@, i as int),
                forall|k: int| 0 <= k < out@.len() ==> out@[k] < i
                    && self.edges@[out@[k] as int].target_id@ == id@,
                forall|e: int| 0 <= e < i && self.edges@[e].target_id@ == id@
                    ==> out@.contains(e as usize),
                forall|a: int, b: int| 0 <= a < b < out@.len() ==> out@[a] < out@[b],
            decreases self.edges.len() - i,
        {
            if str_equal(self.edges[i].target_id.as_str(), id) {
                let ghost before = out@;
                out.push(i);
                assert(out@[out@.len() - 1] == i);
                assert forall|x: usize| before.contains(x) implies out@.contains(x) by {
                    let k = choose|k: int| 0 <= k < before.len() && before[k] == x;
                    assert(out@[k] == x);
                }
            }
            i = i + 1;
        }
        out
    }
}

/// Positions, in order, among the first `n` edges, of those that leave the node `id`.
pub open spec fn edge_positions_from(edges: Seq<CodeEdge>, id: Seq<char>, n: int) -> Seq<usize>
    decreases n,
{
    if n <= 0 {
        seq![]
    } else {
        edge_positions_from(edges, id, n - 1) + if edges[n - 1].source_id@ == id { seq![(n - 1) as usize] } else { seq![] }
    }
}

/// Positions, in order, among the first `n` edges, of those that enter the node `id`.
pub open spec fn edge_positions_to(edges: Seq<CodeEdge>, id: Seq<char>, n: int) -> Seq<usize>
    decreases n,
{
    if n <= 0 {
        seq![]
    } else {
        edge_positions_to(edges, id, n - 1) + if edges[n - 1].target_id@ == id { seq![(n - 1) as usize] } else { seq![] }
    }
}

/// The first position carrying an id is the one `node_index` designates.
pub proof fn lemma_first_node_unique(nodes: Seq<CodeNode>, id: Seq<char>, i: int)
    requires
        first_node_with_id(nodes, id, i),
    ensures
        (choose|j: int| first_node_with_id(nodes, id, j)) == i,
{
    let j = choose|j: int| first_node_with_id(nodes, id, j);
    assert(first_node_with_id(nodes, id, j));
    if j < i {
        assert(nodes[j].id@ != id);
    }
    if i < j {
        assert(nodes[i].id@ != id);
    }
}

} // verus!
