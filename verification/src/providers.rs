//! Which backend drives a model capability.

use vstd::prelude::*;

use crate::embedding::EmbeddingConfig;
use crate::query_expansion::{ExpandedQuery, QueryExpansionConfig};
use crate::reranker::RerankerConfig;

verus! {

/// The backend that a section of the settings asks for.
#[derive(Debug, Clone, Copy, PartialEq, Eq, Structural)]
pub enum ProviderKind {
    /// In-process inference.
    Local,
    /// An HTTP endpoint that speaks the OpenAI wire format.
    OpenAi,
    /// The GitHub Copilot endpoint.
    Copilot,
}

impl Default for ProviderKind {
    fn default() -> (r: Self)
        ensures
            r == ProviderKind::Local,
    {
        ProviderKind::Local
    }
}

/// Settings for a backend behind HTTP.
#[derive(Debug, Clone)]
pub struct OpenAiProviderConfig {
    /// Base URL of the API.
    pub api_base: String,
    /// The model that each request names.
    pub model: String,
    /// The environment variable that holds the API key. The key itself is never stored.
    pub api_key_env: String,
    /// Output dimension of an embedding model; other sections do not read it.
    pub dim: Option<usize>,
    /// Timeout of a request in seconds.
    pub timeout_secs: u64,
}

/// The variable that the API key is read from where the settings name none.
pub fn default_api_key_env() -> (r: String)
    ensures
        r@ == "OPENAI_API_KEY"@,
{
    "OPENAI_API_KEY".to_owned()
}

/// The timeout of a request where the settings give none.
pub fn default_timeout_secs() -> (r: u64)
    ensures
        r == 120,
{
    120
}

/// The backend that a capability is built on.
#[derive(Debug, Clone, Copy, PartialEq, Eq, Structural)]
pub enum Backend {
    /// The capability is not available.
    Off,
    /// Inference in this process.
    Local,
    /// A remote endpoint.
    Remote,
}

/// A capability that turns a query into search variants.
pub trait Expand {
    fn expand(&self, query: &str) -> Vec<ExpandedQuery>;
}

/// The backend that a section asks for: none where it is switched off, and no remote
/// one without the settings for it.
pub open spec fn backend(enabled: bool, provider: ProviderKind, remote_ready: bool) -> Backend {
    if !enabled {
        Backend::Off
    } else if provider == ProviderKind::Local {
        Backend::Local
    } else if remote_ready {
        Backend::Remote
    } else {
        Backend::Off
    }
}

fn choose_backend(enabled: bool, provider: ProviderKind, remote_ready: bool) -> (r: Backend)
    ensures
        r == backend(enabled, provider, remote_ready),
{
    if !enabled {
        Backend::Off
    } else if provider == ProviderKind::Local {
        Backend::Local
    } else if remote_ready {
        Backend::Remote
    } else {
        Backend::Off
    }
}

/// The backend for embeddings. A remote one also needs its output dimension.
pub fn build_embedder(config: &EmbeddingConfig) -> (r: Backend)
    ensures
        r == backend(
            config.enabled,
            config.provider,
            config.openai is Some && config.openai->0.dim is Some,
        ),
{
    let ready = match &config.openai {
        Some(o) => o.dim.is_some(),
        None => false,
    };
    choose_backend(config.enabled, config.provider, ready)
}

/// The backend for reranking.
pub fn build_reranker(config: &RerankerConfig) -> (r: Backend)
    ensures
        r == backend(config.enabled, config.provider, config.openai is Some),
{
    choose_backend(config.enabled, config.provider, config.openai.is_some())
}

/// The backend for query expansion.
pub fn build_expander(config: &QueryExpansionConfig) -> (r: Backend)
    ensures
        r == backend(config.enabled, config.provider, config.openai is Some),
{
    choose_backend(config.enabled, config.provider, config.openai.is_some())
}

/// A capability that is switched off has no backend; one that is local runs here, and any
/// other is asked from afar just where its settings are complete.
pub proof fn backends_are_those_asked_for(enabled: bool, provider: ProviderKind, remote_ready: bool)
    ensures
        backend(enabled, provider, remote_ready) == Backend::Local <==> enabled && provider
            == ProviderKind::Local,
        backend(enabled, provider, remote_ready) == Backend::Remote <==> enabled && provider
            != ProviderKind::Local && remote_ready,
        !enabled ==> backend(enabled, provider, remote_ready) == Backend::Off,
{
}

} // verus!
