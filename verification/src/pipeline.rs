//! The pipeline as a whole: what is indexed, what a search returns, and how a
//! question is answered from what was retrieved.
//!
//! The pipeline does no input or output. Whatever comes from outside (the
//! similarities of a query, the matches of the remote vector store, the
//! language model's answer) is handed in.

use vstd::prelude::*;
use crate::answers::{answer_by, select_strategy, strategy_for, synthesize, text_of, Strategy};
use crate::chunker::{chunk_text, chunk_texts, chunks_are, prefix_within, DEFAULT_CHUNK_SIZE, DEFAULT_OVERLAP, MAX_CONTENT_BYTES};
use crate::config::AppConfig;
use crate::embeddings::EmbeddingModel;
use crate::error::RagError;
use crate::hashing::{file_hash_of, needs_indexing, text_of_hash};
use crate::llm::OllamaLLMClient;
use crate::pinecone::is_configured;
use crate::quality::{assess_context_quality, assessed};
use crate::retrieval::{
    local_candidates,
    match_views,
    remote_candidates,
    remote_view,
    retrieve_enhanced_context,
    retrieved,
    searches_locally,
    source_views,
    Gathered,
    MatchView,
    SourceView,
    VectorMatch,
};
use crate::text::chars_of;
use crate::types::{Chunk, ContextQuality, RAGAnswer, RAGPipelineStats, SearchResult};
use crate::validation::{validate_and_enhance_answer, validated, Checks};
use crate::vector_search::{
    hit_views,
    inserted,
    relevant_hits,
    search_error,
    EntryView,
    RAGSearchEngine,
};

verus! {

/// The similarity that a local hit has to reach: a tenth.
pub const RELEVANCE_THRESHOLD: u32 = 100_000;

/// Most chunks that one document is cut into.
pub const MAX_CHUNKS: usize = 50;

/// The pipeline: the embedding provider, the search engine, the
/// configuration, and what is configured of the remote services.
pub struct ChunkyMonkeyApp {
    pub embedding_model: EmbeddingModel,
    pub rag_engine: RAGSearchEngine,
    pub config: AppConfig,
    pub pinecone_available: bool,
    pub llm_client: Option<OllamaLLMClient>,
}

/// What a search returns: the candidates of the remote store where there are
/// any, else the relevant local hits.
pub open spec fn search_results(
    entries: Seq<EntryView>,
    similarities: Seq<u32>,
    threshold: u32,
    remote: Option<Seq<MatchView>>,
    limit: usize,
) -> Seq<SourceView> {
    let first = match remote {
        Some(matches) => remote_candidates(matches),
        None => seq![],
    };
    if first.len() > 0 {
        first
    } else {
        local_candidates(relevant_hits(entries, similarities, threshold, limit))
    }
}

/// The quality that the pipeline takes a context to have: the assessed one,
/// or good where assessment is switched off.
pub open spec fn quality_for(assess: bool, context: Seq<char>, question: Seq<char>) -> ContextQuality {
    if assess {
        assessed(context, question)
    } else {
        ContextQuality::Good
    }
}

/// The checks that the pipeline makes on an answer.
pub open spec fn checks_of(config: AppConfig) -> Checks {
    Checks {
        coverage: true,
        confidence: config.rag.enable_confidence_scoring,
        attribution: config.rag.enable_source_attribution,
    }
}

/// The final answer: what the strategy gives, with the notes of validation
/// behind it where validation is switched on.
pub open spec fn final_answer(
    config: AppConfig,
    strategy: Strategy,
    quality: ContextQuality,
    generated: Option<Seq<char>>,
    context: Seq<char>,
    question: Seq<char>,
) -> Seq<char> {
    let answer = answer_by(strategy, generated, context, question);
    if config.rag.enable_answer_validation {
        validated(answer, question, context, quality, checks_of(config))
    } else {
        answer
    }
}

/// The entries after the chunks of a document were added to the index, as far
/// as the first `n` of them go.
pub open spec fn with_chunks(
    entries: Seq<EntryView>,
    dimension: usize,
    path: Seq<char>,
    chunk_ids: Seq<u32>,
    texts: Seq<Seq<char>>,
    vectors: Seq<Seq<u32>>,
    n: int,
) -> Seq<EntryView>
    decreases n,
{
    if n <= 0 {
        entries
    } else {
        inserted(
            with_chunks(entries, dimension, path, chunk_ids, texts, vectors, n - 1),
            dimension,
            EntryView {
                chunk_id: chunk_ids[n - 1],
                vector: vectors[n - 1],
                document_path: path,
                chunk_text: texts[n - 1],
            },
        )
    }
}

/// How many of the first `n` vectors come before the first one of a wrong
/// length.
pub open spec fn fitting_prefix(vectors: Seq<Seq<u32>>, dimension: usize, n: int) -> int
    decreases n,
{
    if n <= 0 {
        0
    } else if fitting_prefix(vectors, dimension, n - 1) == n - 1 && vectors[n - 1].len()
        == dimension {
        n
    } else {
        fitting_prefix(vectors, dimension, n - 1)
    }
}

/// The texts of the chunks.
pub open spec fn chunk_text_views(chunks: Seq<Chunk>) -> Seq<Seq<char>> {
    Seq::new(chunks.len(), |i: int| chunks[i].text@)
}

/// What each of the vectors holds.
pub open spec fn vector_views(vectors: Seq<Vec<u32>>) -> Seq<Seq<u32>> {
    Seq::new(vectors.len(), |i: int| vectors[i]@)
}

/// The smaller of two numbers.
pub open spec fn smaller(a: int, b: int) -> int {
    if a < b {
        a
    } else {
        b
    }
}

impl ChunkyMonkeyApp {
    /// The engine is consistent.
    pub open spec fn wf(&self) -> bool {
        self.rag_engine.wf()
    }

    /// A pipeline with an empty index for vectors of the default dimension.
    /// The remote vector store counts as available where an API key is
    /// configured, the language model where both its address and its name
    /// are.
    pub fn new(config: AppConfig) -> (r: Self)
        ensures
            r.wf(),
            r.rag_engine@.len() == 0,
            r.rag_engine.dim() == r.embedding_model.dimension,
            r.rag_engine.threshold() == RELEVANCE_THRESHOLD,
            r.pinecone_available == (config.pinecone.api_key@.len() > 0),
            r.llm_client is Some <==> config.ollama.base_url@.len() > 0
                && config.ollama.llm_model@.len() > 0,
            r.config == config,
    {
        let embedding_model = EmbeddingModel::new();
        let rag_engine = RAGSearchEngine::new(
            embedding_model.get_dimension(),
            RELEVANCE_THRESHOLD,
        );
        let pinecone_available = is_configured(&config.pinecone);
        let has_url = chars_of(config.ollama.base_url.as_str()).len() > 0;
        let has_model = chars_of(config.ollama.llm_model.as_str()).len() > 0;
        let llm_client = if has_url && has_model {
            Some(
                OllamaLLMClient::new(config.ollama.base_url.clone(), config.ollama.llm_model.clone()),
            )
        } else {
            None
        };
        ChunkyMonkeyApp { embedding_model, rag_engine, config, pinecone_available, llm_client }
    }

    /// What a search returns. `remote` is what the remote vector store
    /// returned, if there is one and it answered; `similarities` holds the
    /// similarity of each indexed entry to the query.
    pub fn search(
        &self,
        query: &str,
        query_vector: &Vec<u32>,
        similarities: &Vec<u32>,
        remote: Option<&Vec<VectorMatch>>,
        limit: usize,
    ) -> (r: Result<Vec<SearchResult>, RagError>)
        requires
            self.wf(),
        ensures
            match r {
                Ok(found) => {
                    &&& source_views(found@) == search_results(
                        self.rag_engine@,
                        similarities@,
                        self.rag_engine.threshold(),
                        remote_view(remote),
                        limit,
                    )
                    &&& remote_has_none(remote) ==> query_vector.len() == self.rag_engine.dim()
                        && similarities.len() == self.rag_engine@.len()
                },
                Err(e) => {
                    &&& remote_has_none(remote)
                    &&& query_vector.len() != self.rag_engine.dim() || similarities.len()
                        != self.rag_engine@.len()
                    &&& e == search_error(
                        self.rag_engine.dim(),
                        self.rag_engine@.len(),
                        query_vector.len(),
                        similarities.len(),
                    )
                },
            },
    {
        let mut found: Vec<SearchResult> = Vec::new();
        match remote {
            Some(matches) => {
                let ghost all = match_views(matches@);
                let mut i: usize = 0;
                assert(source_views(found@) =~= remote_candidates(all.take(0)));
                while i < matches.len()
                    invariant
                        i <= matches.len(),
                        all == match_views(matches@),
                        source_views(found@) == remote_candidates(all.take(i as int)),
                    decreases matches.len() - i,
                {
                    proof {
                        assert(all.take(i + 1).drop_last() == all.take(i as int));
                        assert(all.take(i + 1).last() == matches[i as int]@);
                    }
                    let m = &matches[i];
                    match (&m.source, &m.text) {
                        (Some(source), Some(text)) => {
                            let chunk_id: u32 = match m.chunk_id {
                                Some(id) => (id % 0x1_0000_0000) as u32,
                                None => (i as u64 % 0x1_0000_0000) as u32,
                            };
                            let ghost before = source_views(found@);
                            let one = SearchResult {
                                chunk_id,
                                document_path: source.clone(),
                                chunk_text: text.clone(),
                                similarity: m.score,
                            };
                            found.push(one);
                            assert(source_views(found@) =~= before.push(one@));
                        },
                        _ => {},
                    }
                    i += 1;
                }
                assert(all.take(matches.len() as int) == all);
            },
            None => {
                assert(source_views(found@) =~= Seq::<SourceView>::empty());
            },
        }
        if found.len() == 0 {
            let hits = match self.rag_engine.search_relevant_chunks(
                query,
                query_vector,
                similarities,
                limit,
            ) {
                Ok(hits) => hits,
                Err(e) => { return Err(e); },
            };
            let ghost wanted = local_candidates(hit_views(hits@));
            let mut k: usize = 0;
            while k < hits.len()
                invariant
                    k <= hits.len(),
                    wanted == local_candidates(hit_views(hits@)),
                    source_views(found@) == wanted.take(k as int),
                decreases hits.len() - k,
            {
                let ghost before = source_views(found@);
                let one = SearchResult {
                    chunk_id: hits[k].0,
                    document_path: hits[k].2.clone(),
                    chunk_text: hits[k].3.clone(),
                    similarity: hits[k].1,
                };
                found.push(one);
                proof {
                    assert(one@ == wanted[k as int]);
                    assert(source_views(found@) =~= before.push(one@));
                    assert(wanted.take(k + 1) =~= wanted.take(k as int).push(wanted[k as int]));
                }
                k += 1;
            }
            assert(wanted.take(hits.len() as int) == wanted);
        }
        Ok(found)
    }

    /// Gathers the context for a question; see `retrieve_enhanced_context`.
    /// The number of chunks is the configured one where none is given.
    pub fn retrieve(
        &self,
        question: &str,
        question_vector: &Vec<u32>,
        similarities: &Vec<u32>,
        remote: Option<&Vec<VectorMatch>>,
        context_size: Option<usize>,
    ) -> (r: Result<(String, Vec<SearchResult>), RagError>)
        requires
            self.wf(),
        ensures
            match r {
                Ok(found) => (Gathered { context: found.0@, sources: source_views(found.1@) })
                    == retrieved(
                    self.rag_engine@,
                    similarities@,
                    self.rag_engine.threshold(),
                    remote_view(remote),
                    self.context_size_for(context_size),
                    self.config.rag.enable_semantic_expansion,
                ),
                Err(e) => {
                    &&& searches_locally(remote_view(remote), self.context_size_for(context_size))
                    &&& question_vector.len() != self.rag_engine.dim() || similarities.len()
                        != self.rag_engine@.len()
                    &&& e == search_error(
                        self.rag_engine.dim(),
                        self.rag_engine@.len(),
                        question_vector.len(),
                        similarities.len(),
                    )
                },
            },
    {
        let size = match context_size {
            Some(n) => n,
            None => self.config.rag.max_context_chunks,
        };
        retrieve_enhanced_context(
            &self.rag_engine,
            question,
            question_vector,
            similarities,
            remote,
            size,
            self.config.rag.enable_semantic_expansion,
        )
    }

    /// The number of context chunks to retrieve.
    pub open spec fn context_size_for(&self, context_size: Option<usize>) -> usize {
        match context_size {
            Some(n) => n,
            None => self.config.rag.max_context_chunks,
        }
    }

    /// Judges what was retrieved for a question and chooses the strategy for
    /// the answer. Without any source there is no answer.
    pub fn plan_answer(&self, question: &str, context: &str, sources: &Vec<SearchResult>) -> (r:
        Result<(ContextQuality, Strategy), RagError>)
        ensures
            match r {
                Ok(plan) => {
                    &&& sources.len() > 0
                    &&& plan.0 == quality_for(
                        self.config.rag.enable_quality_assessment,
                        context@,
                        question@,
                    )
                    &&& plan.1 == strategy_for(
                        self.config.rag.enable_advanced_rag,
                        self.config.rag.enable_fallback_strategies,
                        plan.0,
                    )
                },
                Err(e) => sources.len() == 0 && e == RagError::EmptyContext,
            },
    {
        if sources.len() == 0 {
            return Err(RagError::EmptyContext);
        }
        let quality = if self.config.rag.enable_quality_assessment {
            assess_context_quality(context, question)
        } else {
            ContextQuality::Good
        };
        let strategy = select_strategy(
            self.config.rag.enable_advanced_rag,
            self.config.rag.enable_fallback_strategies,
            quality,
        );
        Ok((quality, strategy))
    }

    /// Makes the answer that was planned. `generated` is what the language
    /// model answered, if it was asked and answered.
    pub fn complete_answer(
        &self,
        question: &str,
        context: &str,
        sources: Vec<SearchResult>,
        quality: ContextQuality,
        strategy: Strategy,
        generated: Option<&str>,
    ) -> (r: RAGAnswer)
        ensures
            r.question@ == question@,
            r.context@ == context@,
            r.sources == sources,
            r.answer@ == final_answer(
                self.config,
                strategy,
                quality,
                text_of(generated),
                context@,
                question@,
            ),
    {
        let answer = synthesize(strategy, question, context, generated);
        let answer = if self.config.rag.enable_answer_validation {
            validate_and_enhance_answer(
                answer.as_str(),
                question,
                context,
                quality,
                Checks {
                    coverage: true,
                    confidence: self.config.rag.enable_confidence_scoring,
                    attribution: self.config.rag.enable_source_attribution,
                },
            )
        } else {
            answer
        };
        RAGAnswer { question: question.to_owned(), answer, context: context.to_owned(), sources }
    }

    /// Answers a question from what was retrieved for it, or fails where
    /// nothing was retrieved. `generated` is what the language model
    /// answered, if it answered; it counts only where generation is the
    /// strategy.
    pub fn ask_question(
        &self,
        question: &str,
        context: &str,
        sources: Vec<SearchResult>,
        generated: Option<&str>,
    ) -> (r: Result<RAGAnswer, RagError>)
        ensures
            match r {
                Ok(answer) => {
                    let quality = quality_for(
                        self.config.rag.enable_quality_assessment,
                        context@,
                        question@,
                    );
                    &&& sources.len() > 0
                    &&& answer.question@ == question@
                    &&& answer.context@ == context@
                    &&& answer.sources == sources
                    &&& answer.answer@ == final_answer(
                        self.config,
                        strategy_for(
                            self.config.rag.enable_advanced_rag,
                            self.config.rag.enable_fallback_strategies,
                            quality,
                        ),
                        quality,
                        text_of(generated),
                        context@,
                        question@,
                    )
                },
                Err(e) => sources.len() == 0 && e == RagError::EmptyContext,
            },
    {
        let (quality, strategy) = match self.plan_answer(question, context, &sources) {
            Ok(plan) => plan,
            Err(e) => { return Err(e); },
        };
        Ok(self.complete_answer(question, context, sources, quality, strategy, generated))
    }

    /// What is switched on, and what the pipeline can reach.
    pub fn get_rag_stats(&self) -> (r: RAGPipelineStats)
        ensures
            r.config_enabled == self.config.rag.enable_advanced_rag,
            r.quality_assessment_enabled == self.config.rag.enable_quality_assessment,
            r.answer_validation_enabled == self.config.rag.enable_answer_validation,
            r.semantic_expansion_enabled == self.config.rag.enable_semantic_expansion,
            r.fallback_strategies_enabled == self.config.rag.enable_fallback_strategies,
            r.local_vector_count == self.rag_engine@.len(),
            r.pinecone_available == self.pinecone_available,
            r.ollama_available == self.embedding_model.remote_configured,
            r.embedding_dimension == self.embedding_model.dimension,
    {
        RAGPipelineStats {
            config_enabled: self.config.rag.enable_advanced_rag,
            quality_assessment_enabled: self.config.rag.enable_quality_assessment,
            answer_validation_enabled: self.config.rag.enable_answer_validation,
            semantic_expansion_enabled: self.config.rag.enable_semantic_expansion,
            fallback_strategies_enabled: self.config.rag.enable_fallback_strategies,
            local_vector_count: self.rag_engine.len(),
            pinecone_available: self.pinecone_available,
            ollama_available: self.embedding_model.remote_configured,
            embedding_dimension: self.embedding_model.get_dimension(),
        }
    }

    /// Forgets every indexed chunk.
    pub fn clear_database(&mut self)
        ensures
            final(self).wf(),
            final(self).rag_engine@.len() == 0,
            final(self).rag_engine.dim() == old(self).rag_engine.dim(),
            final(self).rag_engine.threshold() == old(self).rag_engine.threshold(),
            final(self).config == old(self).config,
            final(self).embedding_model == old(self).embedding_model,
    {
        self.rag_engine.clear();
    }

    /// The chunks of a document that has to be indexed, and nothing for one
    /// that is known with the hash that its content has now.
    pub fn prepare_document(&self, content: &str, known_hash: Option<&str>) -> (r: Option<
        Vec<Chunk>,
    >)
        ensures
            match r {
                Some(chunks) => {
                    &&& text_of_hash(known_hash) != Some(file_hash_of(content@))
                    &&& chunks_are(
                        chunks@,
                        chunk_texts(
                            content@.take(prefix_within(content@, MAX_CONTENT_BYTES as int)),
                            DEFAULT_CHUNK_SIZE as int,
                            DEFAULT_OVERLAP as int,
                            MAX_CHUNKS as int,
                        ),
                    )
                },
                None => text_of_hash(known_hash) == Some(file_hash_of(content@)),
            },
    {
        if needs_indexing(known_hash, content) {
            Some(chunk_text(content, MAX_CHUNKS))
        } else {
            None
        }
    }

    /// Adds the chunks of a document to the index, each under the id that the
    /// storage gave it and with its vector. Adding stops at the first vector
    /// of a wrong length; the chunks before it stay added.
    pub fn add_document(
        &mut self,
        file_path: &str,
        chunk_ids: &Vec<u32>,
        chunks: &Vec<Chunk>,
        vectors: &Vec<Vec<u32>>,
    ) -> (r: Result<usize, RagError>)
        requires
            old(self).wf(),
            chunk_ids.len() >= smaller(chunks.len() as int, vectors.len() as int),
        ensures
            final(self).wf(),
            final(self).rag_engine.dim() == old(self).rag_engine.dim(),
            final(self).rag_engine.threshold() == old(self).rag_engine.threshold(),
            final(self).config == old(self).config,
            final(self).embedding_model == old(self).embedding_model,
            final(self).rag_engine@ == with_chunks(
                old(self).rag_engine@,
                old(self).rag_engine.dim(),
                file_path@,
                chunk_ids@,
                chunk_text_views(chunks@),
                vector_views(vectors@),
                fitting_prefix(
                    vector_views(vectors@),
                    old(self).rag_engine.dim(),
                    smaller(chunks.len() as int, vectors.len() as int),
                ),
            ),
            match r {
                Ok(added) => added == smaller(chunks.len() as int, vectors.len() as int) && added
                    == fitting_prefix(
                    vector_views(vectors@),
                    old(self).rag_engine.dim(),
                    added as int,
                ),
                Err(e) => {
                    let bad = fitting_prefix(
                        vector_views(vectors@),
                        old(self).rag_engine.dim(),
                        smaller(chunks.len() as int, vectors.len() as int),
                    );
                    &&& bad < smaller(chunks.len() as int, vectors.len() as int)
                    &&& e == RagError::DimensionMismatch {
                        expected: old(self).rag_engine.dim(),
                        got: vector_views(vectors@)[bad].len() as usize,
                    }
                },
            },
    {
        let n: usize = if chunks.len() < vectors.len() {
            chunks.len()
        } else {
            vectors.len()
        };
        let ghost start = self.rag_engine@;
        let ghost dimension = self.rag_engine.dim();
        let ghost texts = chunk_text_views(chunks@);
        let ghost vs = vector_views(vectors@);
        let mut i: usize = 0;
        while i < n
            invariant
                i <= n,
                n == smaller(chunks.len() as int, vectors.len() as int),
                chunk_ids.len() >= n,
                dimension == old(self).rag_engine.dim(),
                start == old(self).rag_engine@,
                self.wf(),
                self.rag_engine.dim() == dimension,
                self.rag_engine.threshold() == old(self).rag_engine.threshold(),
                self.config == old(self).config,
                self.embedding_model == old(self).embedding_model,
                texts == chunk_text_views(chunks@),
                vs == vector_views(vectors@),
                fitting_prefix(vs, dimension, i as int) == i,
                self.rag_engine@ == with_chunks(
                    start,
                    dimension,
                    file_path@,
                    chunk_ids@,
                    texts,
                    vs,
                    i as int,
                ),
            decreases n - i,
        {
            proof {
                assert(vs[i as int] == vectors[i as int]@);
                assert(texts[i as int] == chunks[i as int].text@);
            }
            let ghost before = self.rag_engine@;
            let added = self.rag_engine.add_chunk(
                chunk_ids[i],
                &vectors[i],
                file_path,
                chunks[i].text.as_str(),
            );
            match added {
                Ok(_) => {},
                Err(e) => {
                    proof {
                        lemma_fitting_prefix_stops(vs, dimension, i as int, n as int);
                        assert(self.rag_engine@ == before);
                    }
                    return Err(e);
                },
            }
            i += 1;
        }
        Ok(n)
    }
}

/// The remote store gave no candidate.
pub open spec fn remote_has_none(remote: Option<&Vec<VectorMatch>>) -> bool {
    match remote {
        Some(matches) => remote_candidates(match_views(matches@)).len() == 0,
        None => true,
    }
}

/// The fitting prefix of the first `n` vectors holds at most `n` of them.
pub proof fn lemma_fitting_prefix_bounds(vectors: Seq<Seq<u32>>, dimension: usize, n: int)
    requires
        0 <= n,
    ensures
        0 <= fitting_prefix(vectors, dimension, n) <= n,
    decreases n,
{
    if n > 0 {
        lemma_fitting_prefix_bounds(vectors, dimension, n - 1);
    }
}

/// Behind a vector of a wrong length the fitting prefix grows no more.
proof fn lemma_fitting_prefix_stops(vectors: Seq<Seq<u32>>, dimension: usize, bad: int, n: int)
    requires
        0 <= bad < n,
        fitting_prefix(vectors, dimension, bad) == bad,
        vectors[bad].len() != dimension,
    ensures
        fitting_prefix(vectors, dimension, n) == bad,
    decreases n - bad,
{
    if n > bad + 1 {
        lemma_fitting_prefix_stops(vectors, dimension, bad, n - 1);
    }
}

} // verus!
