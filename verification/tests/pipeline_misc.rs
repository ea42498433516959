use std::collections::hash_map::DefaultHasher;
use std::hash::{Hash, Hasher};

use chunkymonkey::answers::Strategy;
use chunkymonkey::chunker::chunk_text_internal;
use chunkymonkey::config::{AppConfig, PineconeConfig};
use chunkymonkey::embeddings::{EmbeddingModel, EmbeddingSource, Feature};
use chunkymonkey::error::RagError;
use chunkymonkey::hashing::{calculate_file_hash, needs_indexing, to_hex};
use chunkymonkey::indexer::{matches_pattern, Indexer};
use chunkymonkey::llm::OllamaLLMClient;
use chunkymonkey::pinecone::{base_url, candidates_wanted, is_configured, vector_id};
use chunkymonkey::pipeline::ChunkyMonkeyApp;
use chunkymonkey::retrieval::VectorMatch;
use chunkymonkey::types::{Chunk, ContextQuality, RAGPipelineStats, SearchResult};

fn small_app(config: AppConfig) -> ChunkyMonkeyApp {
    let mut app = ChunkyMonkeyApp::new(config);
    app.embedding_model = EmbeddingModel { dimension: 2, remote_configured: false };
    app.rag_engine = chunkymonkey::vector_search::RAGSearchEngine::new(2, 100_000);
    app
}

#[test]
fn the_fox_is_found_from_end_to_end() {
    let mut config = AppConfig::default();
    config.rag.enable_semantic_expansion = false;
    let mut app = small_app(config);
    let chunks = chunk_text_internal("The quick brown fox jumps over the lazy dog.", 100, 20, 50);
    assert_eq!(chunks.len(), 1);
    assert_eq!(chunks[0].text, "The quick brown fox jumps over the lazy dog.");
    assert_eq!(app.add_document("fox.txt", &vec![41], &chunks, &vec![vec![1, 2]]), Ok(1));
    let question = "What does the fox do?";
    let (context, sources) = app.retrieve(question, &vec![0, 0], &vec![870_000], None, Some(5)).unwrap();
    assert_eq!(sources.len(), 1);
    assert_eq!(sources[0].chunk_id, 41);
    assert_eq!(
        context,
        "--- Chunk 1 (Similarity: 0.870) ---\nSource: fox.txt\nContent: The quick brown fox jumps over the lazy dog.\n\n"
    );
    let (quality, strategy) = app.plan_answer(question, &context, &sources).unwrap();
    assert_eq!(quality, ContextQuality::Acceptable);
    assert_eq!(strategy, Strategy::Standard);
    let answer = app.ask_question(question, &context, sources, None).unwrap();
    assert_eq!(answer.question, question);
    assert_eq!(answer.context, context);
    assert_eq!(answer.sources.len(), 1);
    assert!(answer.answer.contains("fox"));
    assert_eq!(
        answer.answer,
        "Based on the indexed documents, here's what I found:\n\nBased on the indexed documents, here's what I found:\n\n**From fox.txt:**\n1. The quick brown fox jumps over the lazy dog.\n\n\n\nConfidence: Moderate - Based on limited but relevant information."
    );
}

#[test]
fn the_fox_is_found_with_expansion_too() {
    let mut app = small_app(AppConfig::default());
    let chunks = chunk_text_internal("The quick brown fox jumps over the lazy dog.", 100, 20, 50);
    app.add_document("fox.txt", &vec![41], &chunks, &vec![vec![1, 2]]).unwrap();
    let question = "What does the fox do?";
    let (context, sources) = app.retrieve(question, &vec![0, 0], &vec![870_000], None, Some(5)).unwrap();
    // One source is fewer than half of five: the expansion search adds the
    // chunk's block once more.
    let one = "--- Chunk 1 (Similarity: 0.870) ---\nSource: fox.txt\nContent: The quick brown fox jumps over the lazy dog.\n\n";
    assert_eq!(context, format!("{}{}", one, one));
    assert_eq!(sources.len(), 1);
    let (quality, strategy) = app.plan_answer(question, &context, &sources).unwrap();
    assert_eq!(quality, ContextQuality::Acceptable);
    assert_eq!(strategy, Strategy::Standard);
    let answer = app.ask_question(question, &context, sources, None).unwrap();
    assert!(answer.answer.contains("fox"));
    assert!(answer.answer.contains("**From fox.txt:**\n1. The quick brown fox jumps over the lazy dog.\n2. The quick brown fox jumps over the lazy dog.\n"));
}

#[test]
fn an_empty_index_gives_no_answer() {
    let app = small_app(AppConfig::default());
    let (context, sources) = app.retrieve("anything?", &vec![0, 0], &vec![], None, None).unwrap();
    assert_eq!(context, "");
    assert_eq!(sources.len(), 0);
    assert_eq!(app.plan_answer("anything?", &context, &sources).unwrap_err(), RagError::EmptyContext);
    let failed = app.ask_question("anything?", &context, sources, Some("a generated answer"));
    assert_eq!(failed.unwrap_err(), RagError::EmptyContext);
    assert_eq!(RagError::EmptyContext.message(), "No relevant content found for the question");
}

#[test]
fn generation_is_used_for_good_context_only() {
    let app = small_app(AppConfig::default());
    let source = SearchResult { chunk_id: 1, document_path: "a".to_string(), chunk_text: "t".to_string(), similarity: 9 };
    let good = "--- Chunk 1 (Similarity: 0.9) ---\nSource: a.txt\nContent: function parse reads the file and returns the code of the function\n\n";
    let answer = app.ask_question("function parse file", good, vec![source.clone()], Some("Generated: function parse file.")).unwrap();
    assert_eq!(
        answer.answer,
        "Generated: function parse file.\n\nConfidence: High - Based on comprehensive and relevant information."
    );
    let poor = "--- Chunk 1 (Similarity: 0.9) ---\nSource: a.txt\nContent: zz\n\n";
    let answer = app.ask_question("function parse file", poor, vec![source.clone()], Some("Generated.")).unwrap();
    assert!(answer.answer.starts_with("I don't have enough specific information"));
    assert!(answer.answer.ends_with("\n\nConfidence: Low - Limited relevant information available."));

    let mut config = AppConfig::default();
    config.rag.enable_quality_assessment = false;
    config.rag.enable_answer_validation = false;
    let app = small_app(config);
    let answer = app.ask_question("function parse file", poor, vec![source.clone()], Some("Generated.")).unwrap();
    assert_eq!(answer.answer, "Generated.");

    let mut config = AppConfig::default();
    config.rag.enable_fallback_strategies = false;
    config.rag.enable_answer_validation = false;
    let app = small_app(config);
    let answer = app.ask_question("function parse file", poor, vec![source], None).unwrap();
    assert_eq!(
        answer.answer,
        "**Key Information Found:**\n1. zz\n\n**Note:** For more detailed answers, consider using a local LLM or cloud API integration."
    );
}

#[test]
fn search_prefers_what_the_remote_store_found() {
    let mut app = small_app(AppConfig::default());
    app.rag_engine.add_chunk(1, &vec![0, 0], "a.txt", "local a").unwrap();
    app.rag_engine.add_chunk(2, &vec![0, 0], "a.txt", "local a2").unwrap();
    let sims = vec![400_000, 800_000];
    let local = app.search("q", &vec![0, 0], &sims, None, 10).unwrap();
    let got: Vec<(u32, u32)> = local.iter().map(|s| (s.chunk_id, s.similarity)).collect();
    assert_eq!(got, vec![(2, 800_000), (1, 400_000)]);
    let matches = vec![
        VectorMatch { id: "x".to_string(), score: 5, source: Some("r.txt".to_string()), text: Some("remote".to_string()), chunk_id: None },
        VectorMatch { id: "y".to_string(), score: 4, source: Some("r.txt".to_string()), text: Some("remote 2".to_string()), chunk_id: Some(70) },
    ];
    let found = app.search("q", &vec![9], &vec![], Some(&matches), 10).unwrap();
    let got: Vec<(u32, &str)> = found.iter().map(|s| (s.chunk_id, s.chunk_text.as_str())).collect();
    assert_eq!(got, vec![(0, "remote"), (70, "remote 2")]);
    let unusable = vec![VectorMatch { id: "x".to_string(), score: 5, source: None, text: None, chunk_id: None }];
    assert_eq!(app.search("q", &vec![0, 0], &sims, Some(&unusable), 1).unwrap().len(), 1);
    assert_eq!(
        app.search("q", &vec![0], &sims, Some(&unusable), 1).unwrap_err(),
        RagError::DimensionMismatch { expected: 2, got: 1 }
    );
}

#[test]
fn adding_stops_at_a_vector_of_wrong_length() {
    let mut app = small_app(AppConfig::default());
    let chunk = |i: usize| Chunk { id: i as u32, document_id: 0, text: format!("chunk {}", i), chunk_index: i };
    let chunks = vec![chunk(0), chunk(1), chunk(2)];
    let vectors = vec![vec![1, 1], vec![2], vec![3, 3]];
    assert_eq!(
        app.add_document("d.txt", &vec![10, 11, 12], &chunks, &vectors),
        Err(RagError::DimensionMismatch { expected: 2, got: 1 })
    );
    assert_eq!(app.rag_engine.len(), 1);
    assert_eq!(app.rag_engine.index().get_chunk_info(10), Some(("d.txt".to_string(), "chunk 0".to_string())));
    let vectors = vec![vec![1, 1], vec![2, 2]];
    assert_eq!(app.add_document("d.txt", &vec![10, 11, 12], &chunks, &vectors), Ok(2));
    assert_eq!(app.rag_engine.len(), 2);
    app.clear_database();
    assert_eq!(app.rag_engine.len(), 0);
}

#[test]
fn documents_are_prepared_unless_unchanged() {
    let app = small_app(AppConfig::default());
    let content = "Some content of a document.";
    let hash = calculate_file_hash(content);
    assert!(app.prepare_document(content, Some(&hash)).is_none());
    let chunks = app.prepare_document(content, Some("another hash")).unwrap();
    assert_eq!(chunks.len(), 1);
    assert_eq!(chunks[0].text, content);
    assert_eq!(app.prepare_document(content, None).unwrap().len(), 1);
    assert!(needs_indexing(None, content));
    assert!(!needs_indexing(Some(&hash), content));
    assert!(needs_indexing(Some(&hash), "changed content"));
}

#[test]
fn a_new_pipeline_reflects_its_configuration() {
    let app = ChunkyMonkeyApp::new(AppConfig::default());
    assert!(!app.pinecone_available);
    assert!(app.llm_client.is_none());
    assert_eq!(app.rag_engine.get_relevance_threshold(), 100_000);
    assert_eq!(app.rag_engine.index().dimension(), 768);
    let stats = app.get_rag_stats();
    assert!(stats.config_enabled);
    assert!(stats.quality_assessment_enabled);
    assert!(stats.answer_validation_enabled);
    assert!(stats.semantic_expansion_enabled);
    assert!(stats.fallback_strategies_enabled);
    assert_eq!(stats.local_vector_count, 0);
    assert!(!stats.pinecone_available);
    assert!(!stats.ollama_available);
    assert_eq!(stats.embedding_dimension, 768);

    let mut config = AppConfig::default();
    config.pinecone.api_key = "SECRET-REDACTED".to_string();
    config.ollama.base_url = "http://localhost:11434".to_string();
    config.rag.enable_advanced_rag = false;
    let app = ChunkyMonkeyApp::new(config);
    assert!(app.pinecone_available);
    let client = app.llm_client.as_ref().unwrap();
    assert_eq!(client.model, "llama3");
    assert_eq!(client.generate_url(), "http://localhost:11434/api/generate");
    assert!(!app.get_rag_stats().config_enabled);
}

#[test]
fn defaults() {
    let config = AppConfig::default();
    assert_eq!(config.ollama.base_url, "");
    assert_eq!(config.ollama.model, "llama3");
    assert_eq!(config.search.base_similarity_threshold, 500_000);
    assert_eq!(config.search.fallback_threshold, 400_000);
    assert_eq!(config.search.max_results_per_query, 10);
    assert_eq!(config.chunking.max_chunk_size, 1500);
    assert_eq!(config.chunking.min_chunk_size, 200);
    assert_eq!(config.chunking.overlap_size, 200);
    assert_eq!(config.rag.min_quality_threshold, 600_000);
    assert_eq!(config.rag.max_context_chunks, 15);
    assert!(config.pinecone.host.is_none());
    let stats = RAGPipelineStats::default();
    assert!(!stats.config_enabled);
    assert_eq!(stats.local_vector_count, 0);
    assert_eq!(stats.embedding_dimension, 768);
}

#[test]
fn a_failing_remote_embedding_falls_back_silently() {
    let model = EmbeddingModel { dimension: 8, remote_configured: true };
    assert_eq!(model.resolve(None), EmbeddingSource::Deterministic);
    assert_eq!(model.resolve(Some(7)), EmbeddingSource::Deterministic);
    assert_eq!(model.resolve(Some(8)), EmbeddingSource::Remote);
    assert_eq!(model.resolve_batch(None), EmbeddingSource::Deterministic);
    assert_eq!(model.resolve_batch(Some(&vec![8, 8, 9])), EmbeddingSource::Deterministic);
    assert_eq!(model.resolve_batch(Some(&vec![8, 8])), EmbeddingSource::Remote);
    assert_eq!(model.resolve_batch(Some(&vec![])), EmbeddingSource::Remote);
    let first = model.embedding_features("the same text twice");
    let second = model.embedding_features("the same text twice");
    assert_eq!(first, second);
    assert_eq!(EmbeddingModel::new().get_dimension(), 768);
}

#[test]
fn features_of_the_local_embedding() {
    let model = EmbeddingModel { dimension: 9, remote_configured: false };
    let (features, bytes) = model.embedding_features("aba é");
    assert_eq!(bytes, 6);
    assert_eq!(
        features,
        vec![
            Feature::CharFrequency { code: 97, count: 2 },
            Feature::CharFrequency { code: 98, count: 1 },
            Feature::CharFrequency { code: 97, count: 2 },
            Feature::CharFrequency { code: 32, count: 1 },
            Feature::WordHash { hash: model.hash_string("aba") },
            Feature::WordHash { hash: model.hash_string("é") },
            Feature::Wave { index: 6 },
            Feature::Wave { index: 7 },
            Feature::Wave { index: 8 },
        ]
    );
    let (features, bytes) = model.embedding_features("");
    assert_eq!(bytes, 0);
    assert_eq!(features[..4], [Feature::Zero; 4]);
    assert_eq!(features[4], Feature::Wave { index: 4 });
    let (features, _) = model.embedding_features("a b c d e f g");
    assert_eq!(features[7], Feature::WordHash { hash: model.hash_string("d") });
    assert_eq!(features[8], Feature::Wave { index: 8 });
    assert_eq!(EmbeddingModel { dimension: 0, remote_configured: false }.embedding_features("x").0.len(), 0);
}

#[test]
fn hash_of_a_string_is_the_hash_of_std() {
    let model = EmbeddingModel::new();
    for sample in ["", "a", "hello", "héllo wörld", "日本語"] {
        let mut hasher = DefaultHasher::new();
        sample.hash(&mut hasher);
        assert_eq!(model.hash_string(sample), hasher.finish(), "sample {:?}", sample);
    }
    assert_ne!(model.hash_string("a"), model.hash_string("b"));
}

#[test]
fn file_hash_is_sha256_in_hex() {
    assert_eq!(calculate_file_hash("abc"), "ba7816bf8f01cfea414140de5dae2223b00361a396177a9cb410ff61f20015ad");
    assert_eq!(calculate_file_hash(""), "e3b0c44298fc1c149afbf4c8996fb92427ae41e4649b934ca495991b7852b855");
    assert_ne!(calculate_file_hash("abc"), "abc");
    let hex: String = to_hex(&vec![0x00, 0x0f, 0xa0, 0xff, 0x9c]).iter().collect();
    assert_eq!(hex, "000fa0ff9c");
}

#[test]
fn file_name_patterns() {
    assert!(matches_pattern("*", "anything"));
    assert!(matches_pattern("*.md", "README.MD"));
    assert!(matches_pattern("*.MD", "notes.md"));
    assert!(!matches_pattern("*.md", "notes.mdx"));
    assert!(!matches_pattern("*.md", "md"));
    assert!(matches_pattern("*.md", ".md"));
    assert!(matches_pattern("test", "my_test.rs"));
    assert!(!matches_pattern("Test", "my_test.rs"));
    assert!(!matches_pattern("*x", "ax"));
    assert!(matches_pattern("*x", "a*x"));
    let indexer = Indexer::new(vec!["*.rs".to_string(), "notes".to_string()]);
    assert!(indexer.matches_patterns("main.rs"));
    assert!(indexer.matches_patterns("my notes.txt"));
    assert!(!indexer.matches_patterns("readme.md"));
    assert!(Indexer::new(vec![]).matches_patterns("readme.md"));
    assert!(indexer.accepts_size(5 * 1024 * 1024));
    assert!(!indexer.accepts_size(5 * 1024 * 1024 + 1));
}

#[test]
fn addresses_of_the_vector_store() {
    let mut config = PineconeConfig {
        api_key: String::new(),
        environment: "us-east1".to_string(),
        index_name: "docs".to_string(),
        host: None,
    };
    assert_eq!(base_url(&config), "https://docs-0.svc.us-east1.pinecone.io");
    assert!(!is_configured(&config));
    config.host = Some("https://example.test".to_string());
    config.api_key = "SECRET-REDACTED".to_string();
    assert_eq!(base_url(&config), "https://example.test");
    assert!(is_configured(&config));
    assert_eq!(vector_id(0), "chunk_0");
    assert_eq!(vector_id(4_294_967_295), "chunk_4294967295");
    assert_eq!(candidates_wanted(15), 30);
    assert_eq!(candidates_wanted(usize::MAX), u32::MAX);
}

#[test]
fn prompts_and_answers_of_the_language_model() {
    let client = OllamaLLMClient::new("http://host".to_string(), "llama3".to_string());
    assert_eq!(
        client.prompt("Why?", "Because."),
        "You are a helpful AI assistant. Based on the following context, provide a clear and concise answer to the question.\n\nQuestion: Why?\n\nContext:\nBecause.\n\nAnswer:"
    );
    assert_eq!(client.interpret(Some("  An answer.\n"), "ctx"), "An answer.");
    assert_eq!(
        client.interpret(None, "ctx"),
        "I couldn't generate a response using the LLM. Here's the relevant information from the context:\n\nctx"
    );
}

#[test]
fn settings_by_name_fill_the_configuration() {
    let config = AppConfig::from_settings(
        Some("http://localhost:11434".to_string()),
        None,
        Some("key".to_string()),
        None,
        Some("docs".to_string()),
        Some("https://docs.example".to_string()),
    );
    assert_eq!(config.ollama.base_url, "http://localhost:11434");
    assert_eq!(config.ollama.model, "");
    assert_eq!(config.ollama.llm_model, "llama3");
    assert_eq!(config.pinecone.api_key, "key");
    assert_eq!(config.pinecone.environment, "");
    assert_eq!(config.pinecone.index_name, "docs");
    assert_eq!(config.pinecone.host, Some("https://docs.example".to_string()));
    assert_eq!(config.search.base_similarity_threshold, 500_000);
    assert_eq!(config.search.max_results_per_query, 10);
    assert_eq!(config.chunking.max_chunk_size, 1500);
    assert_eq!(config.rag.max_context_chunks, 15);
    assert_eq!(config.rag.min_quality_threshold, 600_000);
    assert!(config.rag.enable_advanced_rag && config.rag.enable_fallback_strategies);
    let bare = AppConfig::from_settings(None, None, None, None, None, None);
    assert_eq!(bare.ollama.base_url, "");
    assert_eq!(bare.pinecone.host, None);
    assert!(!ChunkyMonkeyApp::new(bare).pinecone_available);
}
