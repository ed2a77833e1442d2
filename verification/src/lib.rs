//! Verified core of a local code-intelligence workspace: the project graph model,
//! weighted flow tracing, deterministic findings, documentation and API helpers.
use vstd::prelude::*;

pub mod text;
pub mod model;
pub mod flow;
pub mod hashing;
pub mod patterns;
pub mod findings;
pub mod detection;
pub mod context;
pub mod context_pack;
pub mod retrieval;
pub mod api;
pub mod api_discovery;
pub mod api_checks;
pub mod openapi;
pub mod documentation;
pub mod assistant;
pub mod engine;
pub mod dependencies;
pub mod formats;
pub mod json;
pub mod framework;
pub mod features;
pub mod feature_detection;
pub mod feature_ai;
pub mod feature_editing;
pub mod feature_views;
pub mod dto;
pub mod util;
pub mod line_analysis;
pub mod cargo;

verus! {
} // verus!
