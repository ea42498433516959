//! The data that the pipeline hands around.

use vstd::prelude::*;

verus! {

/// One retrieved chunk with its similarity to the query, in millionths.
#[derive(Debug, Clone)]
pub struct SearchResult {
    pub chunk_id: u32,
    pub document_path: String,
    pub chunk_text: String,
    pub similarity: u32,
}

/// An indexed document as the storage layer records it.
#[derive(Debug, Clone)]
pub struct Document {
    pub id: u32,
    pub file_path: String,
    pub file_hash: String,
    pub size: usize,
    pub chunk_count: u32,
}

/// A bounded contiguous span of a document's text, the unit of retrieval.
#[derive(Debug, Clone)]
pub struct Chunk {
    pub id: u32,
    pub document_id: u32,
    pub text: String,
    pub chunk_index: usize,
}

/// The vector of one chunk as the storage layer records it. The vector's
/// components are held as the bit patterns of 32-bit floating-point numbers.
#[derive(Debug, Clone)]
pub struct Embedding {
    pub id: u32,
    pub chunk_id: u32,
    pub vector: Vec<u32>,
}

/// What the storage layer holds: how many documents and chunks, in how many
/// bytes.
#[derive(Debug, Clone, Copy, PartialEq, Eq, Structural)]
pub struct DatabaseStats {
    pub document_count: u32,
    pub chunk_count: u32,
    pub database_size_bytes: u64,
}

/// The answer to one question.
#[derive(Debug, Clone)]
pub struct RAGAnswer {
    pub question: String,
    pub answer: String,
    pub context: String,
    pub sources: Vec<SearchResult>,
}

/// How a directory is indexed.
#[derive(Debug, Clone)]
pub struct IndexingConfig {
    pub chunk_size: usize,
    pub overlap: usize,
    pub max_file_size: usize,
    pub file_patterns: Vec<String>,
}

/// Heuristic verdict on how well retrieved context matches a question.
#[derive(Debug, Clone, Copy, PartialEq, Eq, Structural)]
pub enum ContextQuality {
    /// Highly relevant context with comprehensive coverage.
    Excellent,
    /// Relevant context with good coverage.
    Good,
    /// Some relevant information, limited coverage.
    Acceptable,
    /// Little relevant information.
    Poor,
}

impl ContextQuality {
    /// Position in the total order of verdicts, `Poor` lowest.
    pub open spec fn rank(self) -> nat {
        match self {
            ContextQuality::Poor => 0,
            ContextQuality::Acceptable => 1,
            ContextQuality::Good => 2,
            ContextQuality::Excellent => 3,
        }
    }

    /// Whether the verdict is `Good` or `Excellent`.
    pub fn is_good(&self) -> (r: bool)
        ensures
            r == (self.rank() >= 2),
    {
        matches!(self, ContextQuality::Good | ContextQuality::Excellent)
    }

    /// Whether the verdict is `Acceptable` or better.
    pub fn is_acceptable(&self) -> (r: bool)
        ensures
            r == (self.rank() >= 1),
    {
        matches!(self, ContextQuality::Acceptable | ContextQuality::Good | ContextQuality::Excellent)
    }
}

/// What is switched on in the pipeline, and what it can reach.
#[derive(Debug, Clone)]
pub struct RAGPipelineStats {
    /// Whether generative answers are enabled.
    pub config_enabled: bool,
    /// Whether quality assessment is enabled.
    pub quality_assessment_enabled: bool,
    /// Whether answer validation is enabled.
    pub answer_validation_enabled: bool,
    /// Whether semantic expansion is enabled.
    pub semantic_expansion_enabled: bool,
    /// Whether fallback strategies are enabled.
    pub fallback_strategies_enabled: bool,
    /// Number of vectors in the local index.
    pub local_vector_count: usize,
    /// Whether a remote vector store is configured.
    pub pinecone_available: bool,
    /// Whether a remote embedding service is configured.
    pub ollama_available: bool,
    /// Embedding dimension.
    pub embedding_dimension: usize,
}

impl Default for RAGPipelineStats {
    fn default() -> (r: Self)
        ensures
            !r.config_enabled,
            !r.quality_assessment_enabled,
            !r.answer_validation_enabled,
            !r.semantic_expansion_enabled,
            !r.fallback_strategies_enabled,
            r.local_vector_count == 0,
            !r.pinecone_available,
            !r.ollama_available,
            r.embedding_dimension == 768,
    {
        RAGPipelineStats {
            config_enabled: false,
            quality_assessment_enabled: false,
            answer_validation_enabled: false,
            semantic_expansion_enabled: false,
            fallback_strategies_enabled: false,
            local_vector_count: 0,
            pinecone_available: false,
            ollama_available: false,
            embedding_dimension: 768,
        }
    }
}

} // verus!
