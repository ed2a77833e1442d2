//! Requests, responses and events of the local HTTP interface, and the provider settings
//! they carry.
use vstd::prelude::*;

use crate::context::ContextIntent;
use crate::features::{FeatureSpec, FeatureStatus};
use crate::findings::FindingStatus;
use crate::model::{CodeEdge, CodeNode};
use crate::text::{chars_of, spec_trim, string_of, trim};

verus! {

/// The model providers the assistant can call.
#[derive(Clone, Copy, Debug, PartialEq, Eq, Structural)]
pub enum AiProviderKind {
    Openai,
    Mistral,
    Openrouter,
}

/// Provider settings entered by the user.
#[derive(Clone, Debug)]
pub struct AiProviderConfig {
    pub provider: AiProviderKind,
    pub api_key: String,
    pub model: String,
}

/// What is wrong with provider settings, if anything: a blank key, a blank model, or
/// values too long (more than 4096 bytes of key or 200 bytes of model, once trimmed).
pub open spec fn spec_config_error(api_key: Seq<char>, model: Seq<char>) -> Option<Seq<char>> {
    let key = spec_trim(api_key);
    let m = spec_trim(model);
    if key.len() == 0 {
        Some("an API key is required"@)
    } else if m.len() == 0 {
        Some("an AI model is required"@)
    } else if vstd::utf8::encode_utf8(key).len() > 4096 || vstd::utf8::encode_utf8(m).len() > 200 {
        Some("AI configuration is too long"@)
    } else {
        None
    }
}

impl AiProviderConfig {
    /// Checks the settings before a provider is built from them: on success, the provider
    /// kind with the trimmed key and model.
    pub fn validate(&self) -> (res: Result<(AiProviderKind, String, String), String>)
        ensures
            match res {
                Ok((kind, key, model)) => spec_config_error(self.api_key@, self.model@) is None && kind == self.provider
                    && key@ == spec_trim(self.api_key@) && model@ == spec_trim(self.model@),
                Err(e) => spec_config_error(self.api_key@, self.model@) == Some(e@),
            },
    {
        let key = string_of(&trim(&chars_of(self.api_key.as_str())));
        let model = string_of(&trim(&chars_of(self.model.as_str())));
        if key.unicode_len() == 0 {
            return Err(String::from_str("an API key is required"));
        }
        if model.unicode_len() == 0 {
            return Err(String::from_str("an AI model is required"));
        }
        if key.as_str().as_bytes().len() > 4096 || model.as_str().as_bytes().len() > 200 {
            return Err(String::from_str("AI configuration is too long"));
        }
        Ok((self.provider, key, model))
    }
}

/// Why generated documentation was refused.
#[derive(Clone, Debug)]
pub enum AiDocumentationError {
    TruncatedResponse(String),
    InvalidStructuredOutput(String),
    Provider(String),
}

impl AiDocumentationError {
    /// The message shown for the error.
    pub fn message(&self) -> (res: String)
        ensures
            res@ == match self {
                AiDocumentationError::TruncatedResponse(r) => "AI response was truncated: "@ + r@,
                AiDocumentationError::InvalidStructuredOutput(d) => "AI documentation was not valid structured JSON: "@ + d@,
                AiDocumentationError::Provider(m) => m@,
            },
    {
        match self {
            AiDocumentationError::TruncatedResponse(r) => crate::text::concat_str("AI response was truncated: ", r.as_str()),
            AiDocumentationError::InvalidStructuredOutput(d) => crate::text::concat_str(
                "AI documentation was not valid structured JSON: ",
                d.as_str(),
            ),
            AiDocumentationError::Provider(m) => m.clone(),
        }
    }
}

/// A request for the documentation of a library function.
#[derive(Clone, Debug)]
pub struct FunctionDocumentationRequest {
    pub library_id: String,
    pub instructions: String,
    pub input: String,
}

/// An answer of the assistant and what it cites.
#[derive(Clone, Debug)]
pub struct AiAnswer {
    pub answer: String,
    pub citations: Vec<String>,
}

/// Counts of the neural index of a project.
#[derive(Clone, Debug)]
pub struct NeuralStats {
    pub version: String,
    pub total: usize,
    pub updated: usize,
    pub reused: usize,
    pub skipped: Vec<String>,
    pub remaining: usize,
}

/// Analyse the project at `path`, and keep watching it when asked.
#[derive(Clone, Debug)]
pub struct AnalyzeProjectRequest {
    pub path: String,
    pub watch: bool,
}

/// The outcome of an analysis.
#[derive(Clone, Debug)]
pub struct AnalyzeProjectResponse {
    pub id: String,
    pub root: String,
    pub nodes: usize,
    pub edges: usize,
    pub analyzed_files: usize,
    pub reused_files: usize,
}

/// A window of a listing.
#[derive(Clone, Debug)]
pub struct Pagination {
    pub offset: Option<usize>,
    pub limit: Option<usize>,
}

/// A node with its relations and, when readable, its source.
#[derive(Clone, Debug)]
pub struct NodeDetails {
    pub node: CodeNode,
    pub incoming: Vec<CodeEdge>,
    pub outgoing: Vec<CodeEdge>,
    pub source: Option<String>,
}

/// How far an impact analysis goes.
#[derive(Clone, Debug)]
pub struct ImpactQuery {
    pub depth: Option<usize>,
}

/// A question to the assistant, optionally about a node.
#[derive(Clone, Debug)]
pub struct AiQuery {
    pub question: String,
    pub node_id: Option<String>,
    pub configuration: Option<AiProviderConfig>,
}

/// A directory to list.
#[derive(Clone, Debug)]
pub struct DirectoryQuery {
    pub path: Option<String>,
}

/// A subdirectory in a listing.
#[derive(Clone, Debug)]
pub struct DirectoryEntry {
    pub name: String,
    pub path: String,
}

/// The subdirectories of a directory.
#[derive(Clone, Debug)]
pub struct DirectoryListing {
    pub current: String,
    pub parent: Option<String>,
    pub directories: Vec<DirectoryEntry>,
}

/// Save a node of a project in the library.
#[derive(Clone, Debug)]
pub struct CreateLibraryRequest {
    pub project_id: String,
    pub node_id: String,
    pub category: Option<String>,
    pub tags: Vec<String>,
    pub description: Option<String>,
}

/// A search in the library.
#[derive(Clone, Debug)]
pub struct LibraryQuery {
    pub q: Option<String>,
}

/// A search among the project's own code.
#[derive(Clone, Debug)]
pub struct MyCodeQuery {
    pub q: Option<String>,
    pub kind: Option<String>,
    pub offset: Option<usize>,
    pub limit: Option<usize>,
}

/// The part of the graph to show.
#[derive(Clone, Debug)]
pub struct VisibleViewQuery {
    pub level: Option<String>,
    pub q: Option<String>,
    pub focus: Option<String>,
    pub limit: Option<usize>,
}

/// A new review state for a finding.
#[derive(Clone, Debug)]
pub struct UpdateFindingRequest {
    pub status: FindingStatus,
}

/// Edits of a feature.
#[derive(Clone, Debug)]
pub struct UpdateFeatureRequest {
    pub name: Option<String>,
    pub description: Option<String>,
    pub status: Option<FeatureStatus>,
}

/// A change of a node's membership in a feature.
#[derive(Clone, Debug)]
pub struct FeatureMembershipRequest {
    pub action: String,
    pub node_id: String,
    pub target_feature_id: Option<String>,
    pub optional: Option<bool>,
    pub external_dependency: Option<bool>,
}

/// A search in a feature's sources.
#[derive(Clone, Debug)]
pub struct FeatureSourceQuery {
    pub q: Option<String>,
    pub path: Option<String>,
}

/// A specification to store or to generate for a feature.
#[derive(Clone, Debug)]
pub struct FeatureSpecRequest {
    pub spec: Option<FeatureSpec>,
    pub configuration: Option<AiProviderConfig>,
}

/// Settings of a feature detection.
#[derive(Clone, Debug)]
pub struct FeatureDetectionRequest {
    pub configuration: Option<AiProviderConfig>,
}

/// Settings of an operation that calls a model.
#[derive(Clone, Debug)]
pub struct AiOperationRequest {
    pub configuration: Option<AiProviderConfig>,
}

/// A context pack to assemble.
#[derive(Clone, Debug)]
pub struct ContextRequest {
    pub intent: ContextIntent,
    pub task: String,
    pub node_ids: Vec<String>,
    pub max_tokens: Option<usize>,
}

/// Another feature to compare with.
#[derive(Clone, Debug)]
pub struct CompareFeatureQuery {
    pub other_feature_id: String,
}

/// Features to merge into one.
#[derive(Clone, Debug)]
pub struct MergeFeaturesRequest {
    pub feature_ids: Vec<String>,
    pub name: Option<String>,
}

/// One part of a split feature.
#[derive(Clone, Debug)]
pub struct SplitFeaturePart {
    pub name: String,
    pub node_ids: Vec<String>,
}

/// The parts a feature is split into.
#[derive(Clone, Debug)]
pub struct SplitFeatureRequest {
    pub parts: Vec<SplitFeaturePart>,
}

/// Settings of a documentation generation.
#[derive(Clone, Debug)]
pub struct GenerateDocumentationRequest {
    pub configuration: Option<AiProviderConfig>,
}

/// Events published while a project is analysed, watched and reviewed.
#[derive(Clone, Debug)]
pub enum AnalysisEvent {
    AnalysisStarted { project_id: String, total_files: usize },
    AnalysisProgress {
        project_id: String,
        stage: String,
        processed: usize,
        total: usize,
        nodes: usize,
        edges: usize,
        current_file: Option<String>,
        elapsed_ms: u128,
    },
    FileChanged { project_id: String, paths: Vec<String> },
    GraphUpdated { project_id: String, nodes: usize, edges: usize },
    AnalysisCompleted { project_id: String, files: usize, nodes: usize, edges: usize, unresolved: usize, duration_ms: u128 },
    AnalysisError { project_id: String, message: String },
    FeatureDetectionStarted { project_id: String },
    FeatureCandidateProgress { project_id: String, candidates: usize },
    FeatureAiAnalysis { project_id: String, provider: String, model: String },
    FeatureDetectionCompleted { project_id: String, features: usize },
    DocumentationStarted { project_id: String },
    DocumentationProgress { project_id: String, stage: String },
    DocumentationCompleted { project_id: String, cache_hit: bool },
    SecurityScanProgress { project_id: String, findings: usize },
    QualityScanProgress { project_id: String, findings: usize },
    FeaturePortProgress { feature_id: String, stage: String },
}

} // verus!
