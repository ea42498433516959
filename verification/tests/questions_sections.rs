use chunkymonkey::config::ChunkingConfig;
use chunkymonkey::questions::{
    analyze_context_structure, analyze_question_type, generate_ollama_rag_response, question_type,
    synthesize_answer_from_context, QuestionType,
};
use chunkymonkey::semantic::chunk_document;

fn texts(chunks: &Vec<chunkymonkey::types::Chunk>) -> Vec<String> {
    chunks.iter().map(|c| c.text.clone()).collect()
}

fn block(number: usize, similarity: &str, source: &str, content: &str) -> String {
    format!("--- Chunk {} (Similarity: {}) ---\nSource: {}\nContent: {}\n\n", number, similarity, source, content)
}

#[test]
fn kinds_of_question() {
    assert_eq!(analyze_question_type("What is a chunk?"), "Definition/Purpose question");
    assert_eq!(analyze_question_type("What method to call"), "Technical/Implementation question");
    assert_eq!(analyze_question_type("What now"), "Definition/Purpose question");
    assert_eq!(analyze_question_type("WHAT class does this"), "Definition/Purpose question");
    assert_eq!(analyze_question_type("How to index files"), "Process/How-to question");
    assert_eq!(analyze_question_type("How can it work"), "Technical/Implementation question");
    assert_eq!(analyze_question_type("How does it work"), "Process/How-to question");
    assert_eq!(analyze_question_type("How many"), "Process/How-to question");
    assert_eq!(analyze_question_type("Why so slow"), "Reasoning/Why question");
    assert_eq!(analyze_question_type("Where are the files"), "Location/Structure question");
    assert_eq!(analyze_question_type("When was it indexed"), "Timing/Sequence question");
    assert_eq!(analyze_question_type("Which one"), "Selection/Choice question");
    assert_eq!(analyze_question_type("Explain the function"), "Technical/Implementation question");
    assert_eq!(analyze_question_type("A bug appears"), "Troubleshooting/Problem question");
    assert_eq!(analyze_question_type("Show a sample"), "Example/Code question");
    assert_eq!(analyze_question_type("Tell me more"), "General/Information question");
    assert_eq!(analyze_question_type(""), "General/Information question");
    assert_eq!(question_type(" what is"), QuestionType::General);
}

#[test]
fn answers_are_phrased_by_the_kind_of_question() {
    let context = block(1, "0.9", "a.txt", "alpha beta gamma");
    let info = "Based on the indexed documents, here's what I found:\n\n**From a.txt:**\n1. alpha beta gamma\n\n";
    assert_eq!(
        synthesize_answer_from_context(&context, "What is alpha beta"),
        format!("Based on the available information:\n\n{}\n\nThis provides a comprehensive overview of the topic you asked about. The information is extracted from the indexed source code and documentation files.", info)
    );
    assert_eq!(
        synthesize_answer_from_context(&context, "How to alpha beta"),
        format!("Here's the process based on the available information:\n\n{}\n\nThese steps and code examples show how the functionality is implemented. Follow the code structure and function calls in order for best results.", info)
    );
    assert_eq!(
        synthesize_answer_from_context(&context, "Why alpha beta"),
        format!("The reasoning behind this is:\n\n{}\n\nThis explains the underlying principles and motivations as shown in the code. The implementation details reveal the design decisions and architecture.", info)
    );
    assert_eq!(
        synthesize_answer_from_context(&context, "alpha beta"),
        format!("Here's what I found relevant to your question:\n\n{}\n\nThis information should help answer your question. The content is extracted from the indexed source files and organized by relevance.", info)
    );
    let nothing = "I couldn't find specific information to answer your question. The indexed documents don't contain relevant content for this query.";
    assert_eq!(synthesize_answer_from_context("", "What is alpha"), nothing);
    assert_eq!(generate_ollama_rag_response(true, "What is alpha", ""), Some(nothing.to_string()));
    assert_eq!(generate_ollama_rag_response(false, "What is alpha", &context), None);
}

#[test]
fn a_context_is_described() {
    assert_eq!(analyze_context_structure(""), "0 chunks, 0.000 avg similarity, 0 unique sources");
    assert_eq!(analyze_context_structure("no chunk here"), "0 chunks, 0.000 avg similarity, 0 unique sources");
    let context = format!(
        "{}{}{}",
        block(1, "0.900", "a.txt", "one"),
        block(2, "0.500", "b.txt", "two"),
        block(3, "0.400", " a.txt ", "three")
    );
    assert_eq!(analyze_context_structure(&context), "3 chunks, 0.600 avg similarity, 2 unique sources");
    let odd = "--- Chunk 1 (Similarity:) ---\nSource:\n--- Chunk 2 (Similarity: x) ---\nSource: s\n--- Chunk 3 ---\n";
    assert_eq!(analyze_context_structure(odd), "3 chunks, 0.000 avg similarity, 1 unique sources");
    let thirds = format!("{}{}{}", block(1, "1.000", "a", "x"), block(2, "0.000", "a", "y"), block(3, "0.000", "a", "z"));
    assert_eq!(analyze_context_structure(&thirds), "3 chunks, 0.333 avg similarity, 1 unique sources");
}

fn config(min: usize, max: usize, overlap: usize, semantic: bool, sections: bool) -> ChunkingConfig {
    ChunkingConfig {
        max_chunk_size: max,
        min_chunk_size: min,
        overlap_size: overlap,
        use_semantic_chunking: semantic,
        respect_section_boundaries: sections,
    }
}

#[test]
fn sections_start_new_chunks() {
    let text = "# Title\nintro line one\nintro line two\n## Part\nbody of the part\n  fn helper() {\n  }\n";
    let chunks = chunk_document(text, &config(10, 200, 0, true, true), 50);
    assert_eq!(
        texts(&chunks),
        vec!["# Title\nintro line one\nintro line two", "## Part\nbody of the part", "fn helper() {\n  }"]
    );
    for (i, chunk) in chunks.iter().enumerate() {
        assert_eq!(chunk.chunk_index, i);
        assert_eq!(chunk.id as usize, i);
        assert_eq!(chunk.document_id, 0);
    }
    // A section start does not close a chunk that is not over the minimum.
    let chunks = chunk_document(text, &config(30, 200, 0, true, true), 50);
    assert_eq!(
        texts(&chunks),
        vec!["# Title\nintro line one\nintro line two", "## Part\nbody of the part\n  fn helper() {\n  }"]
    );
    // Sections can be ignored.
    let chunks = chunk_document(text, &config(10, 200, 0, true, false), 50);
    assert_eq!(texts(&chunks), vec![text.trim()]);
}

#[test]
fn chunks_along_sections_keep_to_the_maximum() {
    let text = "first line\nsecond line\nthird line\nfourth";
    let chunks = chunk_document(text, &config(0, 22, 0, true, true), 50);
    assert_eq!(texts(&chunks), vec!["first line\nsecond line", "third line\nfourth"]);
    let chunks = chunk_document(text, &config(0, 21, 0, true, true), 50);
    assert_eq!(texts(&chunks), vec!["first line", "second line", "third line\nfourth"]);
    // A line over the maximum is cut into windows.
    let text = "short\naaaa bbbb cccc dddd\nend";
    let chunks = chunk_document(text, &config(0, 10, 2, true, true), 50);
    assert_eq!(texts(&chunks), vec!["short", "aaaa bbbb", "b cccc", "c dddd", "end"]);
    for chunk in &chunks {
        assert!(chunk.text.chars().count() <= 10);
    }
    assert_eq!(texts(&chunk_document(text, &config(0, 10, 2, true, true), 2)), vec!["short", "aaaa bbbb"]);
    assert_eq!(chunk_document("", &config(0, 10, 2, true, true), 5).len(), 0);
    assert_eq!(chunk_document("\n \n\t\n", &config(0, 10, 2, true, true), 5).len(), 0);
    assert_eq!(chunk_document("some text", &config(0, 10, 2, true, true), 0).len(), 0);
}

#[test]
fn sliding_windows_where_sections_are_not_asked_for() {
    let chunks = chunk_document("aaaa bbbb cccc dddd", &config(0, 10, 2, false, true), 50);
    assert_eq!(texts(&chunks), vec!["aaaa bbbb", "b cccc", "c dddd"]);
}
