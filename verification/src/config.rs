//! What can be configured. Thresholds are similarities or scores in
//! millionths.

use vstd::prelude::*;

verus! {

/// Where the embedding and generation service is found.
#[derive(Debug, Clone)]
pub struct OllamaConfig {
    pub base_url: String,
    pub model: String,
    /// The model that generates answers.
    pub llm_model: String,
}

/// How searches are run.
#[derive(Debug, Clone)]
pub struct SearchConfig {
    pub base_similarity_threshold: u32,
    pub fallback_threshold: u32,
    pub max_results_per_query: usize,
    pub enable_semantic_search: bool,
    pub enable_query_expansion: bool,
    pub enable_content_filtering: bool,
    pub enable_reranking: bool,
}

/// How documents are cut into chunks.
#[derive(Debug, Clone)]
pub struct ChunkingConfig {
    pub max_chunk_size: usize,
    pub min_chunk_size: usize,
    pub overlap_size: usize,
    pub use_semantic_chunking: bool,
    pub respect_section_boundaries: bool,
}

/// What the answer pipeline does.
#[derive(Debug, Clone)]
pub struct RAGConfig {
    /// Generate answers with a language model where the context is good.
    pub enable_advanced_rag: bool,
    /// Assess the quality of the context.
    pub enable_quality_assessment: bool,
    /// Validate and annotate answers.
    pub enable_answer_validation: bool,
    /// Add context from a further search where few sources were found.
    pub enable_semantic_expansion: bool,
    /// Answer from poor context with a generic explanation.
    pub enable_fallback_strategies: bool,
    /// Least context quality for generated answers.
    pub min_quality_threshold: u32,
    /// Most context chunks to retrieve.
    pub max_context_chunks: usize,
    /// Append a confidence note to answers.
    pub enable_confidence_scoring: bool,
    /// Note where an answer has no source.
    pub enable_source_attribution: bool,
}

/// Where the remote vector store is found.
#[derive(Debug, Clone)]
pub struct PineconeConfig {
    pub api_key: String,
    pub environment: String,
    pub index_name: String,
    /// A host that takes the place of the standard address.
    pub host: Option<String>,
}

/// The whole configuration.
#[derive(Debug, Clone)]
pub struct AppConfig {
    pub ollama: OllamaConfig,
    pub pinecone: PineconeConfig,
    pub search: SearchConfig,
    pub chunking: ChunkingConfig,
    pub rag: RAGConfig,
}

impl Default for SearchConfig {
    fn default() -> (r: Self)
        ensures
            r.base_similarity_threshold == 500_000,
            r.fallback_threshold == 400_000,
            r.max_results_per_query == 10,
            r.enable_semantic_search,
            r.enable_query_expansion,
            r.enable_content_filtering,
            r.enable_reranking,
    {
        SearchConfig {
            base_similarity_threshold: 500_000,
            fallback_threshold: 400_000,
            max_results_per_query: 10,
            enable_semantic_search: true,
            enable_query_expansion: true,
            enable_content_filtering: true,
            enable_reranking: true,
        }
    }
}

impl Default for ChunkingConfig {
    fn default() -> (r: Self)
        ensures
            r.max_chunk_size == 1500,
            r.min_chunk_size == 200,
            r.overlap_size == 200,
            r.use_semantic_chunking,
            r.respect_section_boundaries,
    {
        ChunkingConfig {
            max_chunk_size: 1500,
            min_chunk_size: 200,
            overlap_size: 200,
            use_semantic_chunking: true,
            respect_section_boundaries: true,
        }
    }
}

impl Default for RAGConfig {
    fn default() -> (r: Self)
        ensures
            r.enable_advanced_rag,
            r.enable_quality_assessment,
            r.enable_answer_validation,
            r.enable_semantic_expansion,
            r.enable_fallback_strategies,
            r.min_quality_threshold == 600_000,
            r.max_context_chunks == 15,
            r.enable_confidence_scoring,
            r.enable_source_attribution,
    {
        RAGConfig {
            enable_advanced_rag: true,
            enable_quality_assessment: true,
            enable_answer_validation: true,
            enable_semantic_expansion: true,
            enable_fallback_strategies: true,
            min_quality_threshold: 600_000,
            max_context_chunks: 15,
            enable_confidence_scoring: true,
            enable_source_attribution: true,
        }
    }
}

/// The search, chunking and answer settings are the default ones.
pub open spec fn has_default_settings(config: AppConfig) -> bool {
    &&& config.search.base_similarity_threshold == 500_000
    &&& config.search.fallback_threshold == 400_000
    &&& config.search.max_results_per_query == 10
    &&& config.search.enable_semantic_search
    &&& config.search.enable_query_expansion
    &&& config.search.enable_content_filtering
    &&& config.search.enable_reranking
    &&& config.chunking.max_chunk_size == 1500
    &&& config.chunking.min_chunk_size == 200
    &&& config.chunking.overlap_size == 200
    &&& config.chunking.use_semantic_chunking
    &&& config.chunking.respect_section_boundaries
    &&& config.rag.enable_advanced_rag
    &&& config.rag.enable_quality_assessment
    &&& config.rag.enable_answer_validation
    &&& config.rag.enable_semantic_expansion
    &&& config.rag.enable_fallback_strategies
    &&& config.rag.min_quality_threshold == 600_000
    &&& config.rag.max_context_chunks == 15
    &&& config.rag.enable_confidence_scoring
    &&& config.rag.enable_source_attribution
}

/// The text of a setting, empty where the setting is missing.
pub open spec fn text_or_empty(value: Option<String>) -> Seq<char> {
    match value {
        Some(text) => text@,
        None => seq![],
    }
}

fn or_empty(value: Option<String>) -> (r: String)
    ensures
        r@ == text_or_empty(value),
{
    match value {
        Some(text) => text,
        None => String::new(),
    }
}

impl Default for AppConfig {
    /// No remote service is configured; the models are named `llama3`.
    fn default() -> (r: Self)
        ensures
            r.ollama.base_url@.len() == 0,
            r.ollama.model@ == "llama3"@,
            r.ollama.llm_model@ == "llama3"@,
            r.pinecone.api_key@.len() == 0,
            r.pinecone.environment@.len() == 0,
            r.pinecone.index_name@.len() == 0,
            r.pinecone.host is None,
            has_default_settings(r),
    {
        AppConfig {
            ollama: OllamaConfig {
                base_url: String::new(),
                model: "llama3".to_owned(),
                llm_model: "llama3".to_owned(),
            },
            pinecone: PineconeConfig {
                api_key: String::new(),
                environment: String::new(),
                index_name: String::new(),
                host: None,
            },
            search: SearchConfig::default(),
            chunking: ChunkingConfig::default(),
            rag: RAGConfig::default(),
        }
    }
}

impl AppConfig {
    /// The configuration that a set of named settings gives: the address and
    /// the embedding model of the service, and the key, environment, index
    /// and host of the vector store. A missing setting is empty, a missing
    /// host is none. The model that generates answers is `llama3`, and the
    /// other settings are the default ones.
    pub fn from_settings(
        ollama_base_url: Option<String>,
        ollama_model: Option<String>,
        pinecone_api_key: Option<String>,
        pinecone_environment: Option<String>,
        pinecone_index: Option<String>,
        pinecone_host: Option<String>,
    ) -> (r: Self)
        ensures
            r.ollama.base_url@ == text_or_empty(ollama_base_url),
            r.ollama.model@ == text_or_empty(ollama_model),
            r.ollama.llm_model@ == "llama3"@,
            r.pinecone.api_key@ == text_or_empty(pinecone_api_key),
            r.pinecone.environment@ == text_or_empty(pinecone_environment),
            r.pinecone.index_name@ == text_or_empty(pinecone_index),
            r.pinecone.host == pinecone_host,
            has_default_settings(r),
    {
        AppConfig {
            ollama: OllamaConfig {
                base_url: or_empty(ollama_base_url),
                model: or_empty(ollama_model),
                llm_model: "llama3".to_owned(),
            },
            pinecone: PineconeConfig {
                api_key: or_empty(pinecone_api_key),
                environment: or_empty(pinecone_environment),
                index_name: or_empty(pinecone_index),
                host: pinecone_host,
            },
            search: SearchConfig::default(),
            chunking: ChunkingConfig::default(),
            rag: RAGConfig::default(),
        }
    }
}

} // verus!
