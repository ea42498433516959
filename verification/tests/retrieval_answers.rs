use chunkymonkey::answers::{
    generate_advanced_rag_response, generate_fallback_response, generate_simple_answer,
    generate_standard_rag_response, select_strategy, synthesize, Strategy,
};
use chunkymonkey::key_info::{extract_key_information, find_key_information};
use chunkymonkey::retrieval::{expand_context, retrieve_enhanced_context, VectorMatch};
use chunkymonkey::summary::{clean_and_summarize_content, extract_function_call};
use chunkymonkey::types::ContextQuality;
use chunkymonkey::validation::{answer_addresses_question, validate_and_enhance_answer, Checks};
use chunkymonkey::vector_search::RAGSearchEngine;

fn engine_with(docs: &[(u32, &str, &str)]) -> RAGSearchEngine {
    let mut engine = RAGSearchEngine::new(1, 100_000);
    for (id, path, text) in docs {
        engine.add_chunk(*id, &vec![*id], path, text).unwrap();
    }
    engine
}

fn remote(source: Option<&str>, text: Option<&str>, chunk_id: Option<u64>, score: u32) -> VectorMatch {
    VectorMatch {
        id: "v".to_string(),
        score,
        source: source.map(|s| s.to_string()),
        text: text.map(|s| s.to_string()),
        chunk_id,
    }
}

fn block(number: usize, similarity: &str, source: &str, content: &str) -> String {
    format!("--- Chunk {} (Similarity: {}) ---\nSource: {}\nContent: {}\n\n", number, similarity, source, content)
}

#[test]
fn local_retrieval_keeps_one_chunk_of_each_document() {
    let engine = engine_with(&[(1, "a.txt", "a one"), (2, "a.txt", "a two"), (3, "b.txt", "b one")]);
    let (context, sources) =
        retrieve_enhanced_context(&engine, "q", &vec![0], &vec![700_000, 900_000, 800_000], None, 4, false).unwrap();
    let got: Vec<(u32, &str)> = sources.iter().map(|s| (s.chunk_id, s.document_path.as_str())).collect();
    assert_eq!(got, vec![(2, "a.txt"), (3, "b.txt")]);
    assert_eq!(sources[0].similarity, 900_000);
    assert_eq!(sources[0].chunk_text, "a two");
    assert_eq!(context, format!("{}{}", block(1, "0.900", "a.txt", "a two"), block(2, "0.800", "b.txt", "b one")));
}

#[test]
fn a_chunk_from_both_sides_is_a_source_once() {
    let engine = engine_with(&[(1, "a.txt", "same chunk"), (2, "c.txt", "other chunk")]);
    let matches = vec![
        remote(Some("a.txt"), Some("same chunk"), Some(1), 950_000),
        remote(Some("b.txt"), Some("remote only"), None, 600_000),
        remote(None, Some("no source"), Some(9), 990_000),
        remote(Some("d.txt"), None, Some(9), 990_000),
        remote(Some("b.txt"), Some("again b"), Some(77), 500_000),
    ];
    let (context, sources) =
        retrieve_enhanced_context(&engine, "q", &vec![0], &vec![900_000, 400_000], Some(&matches), 5, false).unwrap();
    let got: Vec<(u32, &str, u32)> =
        sources.iter().map(|s| (s.chunk_id, s.document_path.as_str(), s.similarity)).collect();
    assert_eq!(got, vec![(1, "a.txt", 950_000), (1, "b.txt", 600_000), (2, "c.txt", 400_000)]);
    assert_eq!(
        context,
        format!(
            "{}{}{}",
            block(1, "0.950", "a.txt", "same chunk"),
            block(2, "0.600", "b.txt", "remote only"),
            block(3, "0.400", "c.txt", "other chunk")
        )
    );
}

#[test]
fn chunk_ids_are_reduced_to_32_bits() {
    let engine = engine_with(&[]);
    let matches = vec![remote(Some("a"), Some("t"), Some(0x1_0000_0005), 1)];
    let (_, sources) = retrieve_enhanced_context(&engine, "q", &vec![0], &vec![], Some(&matches), 5, false).unwrap();
    assert_eq!(sources[0].chunk_id, 5);
}

#[test]
fn enough_remote_sources_leave_the_index_alone() {
    let engine = engine_with(&[(1, "a.txt", "local")]);
    let matches = vec![remote(Some("r1"), Some("t1"), Some(1), 9), remote(Some("r2"), Some("t2"), Some(2), 8)];
    // The query vector has the wrong length, but the index is not asked.
    let (_, sources) =
        retrieve_enhanced_context(&engine, "q", &vec![0, 0, 0], &vec![], Some(&matches), 2, true).unwrap();
    assert_eq!(sources.len(), 2);
    let failed = retrieve_enhanced_context(&engine, "q", &vec![0, 0, 0], &vec![], Some(&matches), 3, true);
    assert!(failed.is_err());
}

#[test]
fn nothing_retrieved_is_no_error() {
    let engine = engine_with(&[]);
    let (context, sources) = retrieve_enhanced_context(&engine, "q", &vec![0], &vec![], None, 5, true).unwrap();
    assert_eq!(context, "");
    assert_eq!(sources.len(), 0);
}

#[test]
fn expansion_adds_text_and_no_sources() {
    let engine = engine_with(&[(1, "a.txt", "a one"), (2, "a.txt", "a two"), (3, "a.txt", "a three")]);
    let sims = vec![700_000, 900_000, 200_000];
    let (context, sources) = retrieve_enhanced_context(&engine, "q", &vec![0], &sims, None, 4, true).unwrap();
    assert_eq!(sources.len(), 1);
    assert_eq!(
        context,
        format!(
            "{}{}{}",
            block(1, "0.900", "a.txt", "a two"),
            block(1, "0.900", "a.txt", "a two"),
            block(2, "0.700", "a.txt", "a one")
        )
    );
    let (plain, _) = retrieve_enhanced_context(&engine, "q", &vec![0], &sims, None, 4, false).unwrap();
    assert_eq!(plain, block(1, "0.900", "a.txt", "a two"));
}

#[test]
fn expansion_takes_the_floor_in_place_of_the_threshold() {
    let mut engine = engine_with(&[(1, "a.txt", "a one"), (2, "b.txt", "b one"), (3, "c.txt", "c one")]);
    engine.set_relevance_threshold(800_000);
    let sims = vec![900_000, 400_000, 300_000];
    let (context, sources) = retrieve_enhanced_context(&engine, "q", &vec![0], &sims, None, 4, true).unwrap();
    assert_eq!(sources.len(), 1);
    assert_eq!(sources[0].document_path, "a.txt");
    assert_eq!(
        context,
        format!(
            "{}{}{}",
            block(1, "0.900", "a.txt", "a one"),
            block(1, "0.900", "a.txt", "a one"),
            block(2, "0.400", "b.txt", "b one")
        )
    );
}

#[test]
fn expansion_numbers_blocks_by_the_headers_so_far() {
    let hits = vec![
        (1, 900_000, "a".to_string(), "holds --- Chunk in its text".to_string()),
        (2, 300_000, "b".to_string(), "at the floor".to_string()),
        (3, 300_001, "c".to_string(), "above the floor".to_string()),
    ];
    let text: String = expand_context(&hits).iter().collect();
    assert_eq!(
        text,
        format!(
            "{}{}",
            block(1, "0.900", "a", "holds --- Chunk in its text"),
            block(3, "0.300", "c", "above the floor")
        )
    );
}

#[test]
fn function_calls_are_found() {
    assert_eq!(extract_function_call("let x = parse( a, b );"), Some("parse(a, b)".to_string()));
    assert_eq!(extract_function_call("f(g(x))"), Some("f(g(x))".to_string()));
    assert_eq!(extract_function_call("(x)"), None);
    assert_eq!(extract_function_call(") f ("), None);
    assert_eq!(extract_function_call("no call"), None);
    assert_eq!(extract_function_call("open( only"), None);
    assert_eq!(extract_function_call("a b()"), Some("b()".to_string()));
}

#[test]
fn content_is_summarized() {
    assert_eq!(clean_and_summarize_content("  two\n\nlines\r\nhere  "), "two lines here");
    assert_eq!(clean_and_summarize_content("let v = index.search(query, 5);"), "Function: index.search(query, 5)");
    assert_eq!(clean_and_summarize_content("(only); parentheses"), "(only); parentheses");
    assert_eq!(clean_and_summarize_content(""), "");
    let long: Vec<String> = (0..40).map(|i| format!("word{:03}", i)).collect();
    let expected = format!("{}...", long[..30].join(" "));
    assert_eq!(clean_and_summarize_content(&long.join("  ")), expected);
    // Thirty words or fewer are kept, however long.
    let few = vec!["abcdefghijklmnopqrstuvwxyz"; 10].join(" ");
    assert_eq!(clean_and_summarize_content(&few), few);
    // Two hundred bytes or fewer are kept, however many words.
    let short = vec!["ab"; 60].join(" ");
    assert_eq!(clean_and_summarize_content(&short), short);
}

#[test]
fn key_information_of_the_fox_sentence() {
    let context = block(1, "0.900", "notes.txt", "The quick brown fox jumps over the lazy dog.");
    let info = extract_key_information(&context, "What does the fox do?");
    assert_eq!(
        info,
        "Based on the indexed documents, here's what I found:\n\n**From notes.txt:**\n1. The quick brown fox jumps over the lazy dog.\n\n"
    );
    assert_eq!(find_key_information(&context, "What does the fox do?"), (true, info));
}

#[test]
fn key_information_ranks_and_groups() {
    let question = "alpha beta gamma";
    let context = format!(
        "{}{}{}{}{}",
        block(1, "0.200", "a.txt", "alpha only"),
        block(2, "0.900", "b.txt", "alpha beta gamma the best"),
        block(3, "0.100", "a.txt", "alpha beta from a"),
        block(4, "0.990", "c.txt", "zz"),
        block(5, "0.500", "d.txt", "alpha beta from d"),
    );
    // The chunk of c.txt is not relevant. Ranked: b (all three words), then
    // d and the second of a (two words each; d is more similar), then the
    // first of a, which is left out.
    assert_eq!(
        extract_key_information(&context, question),
        "Based on the indexed documents, here's what I found:\n\n**From b.txt:**\n1. alpha beta gamma the best\n\n**From d.txt:**\n1. alpha beta from d\n\n**From a.txt:**\n1. alpha beta from a\n\n"
    );
}

#[test]
fn key_information_groups_chunks_of_one_source() {
    let question = "alpha beta";
    let context = format!(
        "{}{}{}",
        block(1, "0.9", "a.txt", "alpha beta one"),
        block(2, "0.8", "b.txt", "alpha beta two"),
        block(3, "0.7", "a.txt", "alpha beta three"),
    );
    assert_eq!(
        extract_key_information(&context, question),
        "Based on the indexed documents, here's what I found:\n\n**From a.txt:**\n1. alpha beta one\n2. alpha beta three\n\n**From b.txt:**\n1. alpha beta two\n\n"
    );
}

#[test]
fn key_information_reads_continued_content() {
    let context = "--- Chunk 1 (Similarity: 0.5) ---\nSource:   spaced.txt  \nContent: alpha first line\n   beta second line   \n\nignored before any content?\n--- Chunk 2 (Similarity: bad) ---\nContent: \nnot content, nothing before it\n";
    assert_eq!(
        extract_key_information(context, "alpha beta"),
        "Based on the indexed documents, here's what I found:\n\n**From spaced.txt:**\n1. alpha first line beta second line ignored before any content?\n\n"
    );
}

#[test]
fn no_key_information() {
    assert_eq!(
        extract_key_information("", "What does the fox do?"),
        "No relevant information found in the indexed documents."
    );
    let context = block(1, "0.9", "a.txt", "zz");
    assert_eq!(find_key_information(&context, "qqq www").0, false);
}

#[test]
fn standard_answer() {
    let context = block(1, "0.900", "notes.txt", "The quick brown fox jumps over the lazy dog.");
    let answer = generate_standard_rag_response("What does the fox do?", &context);
    assert!(answer.starts_with("Based on the indexed documents, here's what I found:\n\n"));
    assert!(answer.contains("fox"));
    assert!(answer.contains("**From notes.txt:**\n1. The quick brown fox jumps over the lazy dog.\n"));
    assert_eq!(
        generate_standard_rag_response("qqq www", &block(1, "0.9", "a.txt", "zz")),
        "Based on the available information, I couldn't find specific details to answer your question. Consider rephrasing your question or indexing more relevant documents."
    );
}

#[test]
fn advanced_answer_falls_back_on_the_standard_one() {
    let context = block(1, "0.900", "notes.txt", "The quick brown fox jumps over the lazy dog.");
    let question = "What does the fox do?";
    let standard = generate_standard_rag_response(question, &context);
    assert_eq!(generate_advanced_rag_response(question, &context, Some("It jumps.")), "It jumps.");
    assert_eq!(generate_advanced_rag_response(question, &context, None), standard);
    assert_eq!(generate_advanced_rag_response(question, &context, Some("")), standard);
    assert_eq!(
        generate_advanced_rag_response(question, &context, Some("Sorry. I couldn't generate a response using the LLM.")),
        standard
    );
}

#[test]
fn fallback_answer() {
    let preamble = "I don't have enough specific information to provide a detailed answer to your question. However, based on the project structure, this appears to be a semantic search and RAG system.\n\nTo get better answers, consider:\n1. Indexing more documentation about the topic\n2. Using more specific search terms\n3. Checking if the documents are properly indexed\n\n";
    assert_eq!(generate_fallback_response(""), preamble);
    assert_eq!(generate_fallback_response(" \n "), preamble);
    let long = "x".repeat(150);
    let context = format!("{}{}", block(1, "0.1", "a.txt", &long), block(2, "0.1", "b.txt", "second"));
    assert_eq!(
        generate_fallback_response(&context),
        format!("{}Available context (limited):\n\u{2022} {}\n", preamble, "x".repeat(100))
    );
    assert_eq!(
        generate_fallback_response("Content: one\nContent: two\nContent: \nContent: four"),
        format!("{}Available context (limited):\n\u{2022} one\n\u{2022} two\n", preamble)
    );
    assert_eq!(generate_fallback_response("nothing marked"), format!("{}Available context (limited):\n", preamble));
}

#[test]
fn simple_answer() {
    let note = "\n**Note:** For more detailed answers, consider using a local LLM or cloud API integration.";
    assert_eq!(
        generate_simple_answer(""),
        format!("No relevant information found in the indexed documents.{}", note)
    );
    let context = format!("{}{}", block(1, "0.1", "a.txt", "first"), block(2, "0.1", "b.txt", "second"));
    assert_eq!(generate_simple_answer(&context), format!("**Key Information Found:**\n1. first\n2. second\n{}", note));
    let many: String = (1..=5).map(|i| block(i, "0.1", "a.txt", &format!("item {}", i))).collect();
    assert_eq!(
        generate_simple_answer(&many),
        format!("**Key Information Found:**\n1. item 1\n2. item 2\n3. item 3\n... and 2 more relevant chunks.\n{}", note)
    );
    assert_eq!(generate_simple_answer("x Content:y"), format!("**Key Information Found:**\n1. x Content:y\n{}", note));
}

#[test]
fn strategies() {
    let (excellent, good, acceptable, poor) =
        (ContextQuality::Excellent, ContextQuality::Good, ContextQuality::Acceptable, ContextQuality::Poor);
    assert_eq!(select_strategy(true, true, excellent), Strategy::Advanced);
    assert_eq!(select_strategy(true, true, good), Strategy::Advanced);
    assert_eq!(select_strategy(true, true, acceptable), Strategy::Standard);
    assert_eq!(select_strategy(false, true, excellent), Strategy::Standard);
    assert_eq!(select_strategy(false, false, acceptable), Strategy::Standard);
    assert_eq!(select_strategy(true, true, poor), Strategy::Fallback);
    assert_eq!(select_strategy(false, true, poor), Strategy::Fallback);
    assert_eq!(select_strategy(true, false, poor), Strategy::Simple);
    assert_eq!(select_strategy(false, false, poor), Strategy::Simple);
    let context = block(1, "0.1", "a.txt", "first");
    assert_eq!(synthesize(Strategy::Simple, "q", &context, Some("unused")), generate_simple_answer(&context));
    assert_eq!(synthesize(Strategy::Fallback, "q", &context, None), generate_fallback_response(&context));
    assert_eq!(synthesize(Strategy::Standard, "q", &context, Some("unused")), generate_standard_rag_response("q", &context));
    assert_eq!(synthesize(Strategy::Advanced, "q", &context, Some("generated")), "generated");
}

#[test]
fn answers_address_questions_by_half_of_the_words() {
    // Words of more than three bytes: "does", "quick", "brown", "jump".
    let question = "How does the quick brown fox jump";
    assert!(answer_addresses_question("The QUICK and BROWN one", question));
    assert!(!answer_addresses_question("The quick one", question));
    assert!(answer_addresses_question("quickly jumping", question));
    assert!(!answer_addresses_question("anything", "a b c the fox"));
    assert!(!answer_addresses_question("anything", ""));
}

#[test]
fn validation_only_adds() {
    let caveat = "\n\nNote: This answer may not fully address your specific question. Consider rephrasing or providing more context.";
    let attribution = "\n\nNote: Source information not available for this answer.";
    let all = Checks { coverage: true, confidence: true, attribution: true };
    let none = Checks { coverage: false, confidence: false, attribution: false };
    let question = "Where does the fox jump";
    assert_eq!(validate_and_enhance_answer("It does jump.", question, "Source: a", ContextQuality::Good, none), "It does jump.");
    assert_eq!(
        validate_and_enhance_answer("It does jump.", question, "Source: a", ContextQuality::Excellent, all),
        "It does jump.\n\nConfidence: High - Based on comprehensive and relevant information."
    );
    assert_eq!(
        validate_and_enhance_answer("No idea.", question, "no marker", ContextQuality::Poor, all),
        format!("No idea.{}\n\nConfidence: Low - Limited relevant information available.{}", caveat, attribution)
    );
    assert_eq!(
        validate_and_enhance_answer("No idea.", question, "no marker", ContextQuality::Good, Checks { coverage: true, confidence: false, attribution: false }),
        format!("No idea.{}", caveat)
    );
    assert_eq!(
        validate_and_enhance_answer("No idea.", question, "no marker", ContextQuality::Good, Checks { coverage: false, confidence: true, attribution: false }),
        "No idea.\n\nConfidence: Good - Based on relevant information with some gaps."
    );
    assert_eq!(
        validate_and_enhance_answer("No idea.", question, "no marker", ContextQuality::Acceptable, Checks { coverage: false, confidence: true, attribution: true }),
        format!("No idea.\n\nConfidence: Moderate - Based on limited but relevant information.{}", attribution)
    );
}
