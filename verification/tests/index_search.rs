use chunkymonkey::error::RagError;
use chunkymonkey::vector_search::{keep_relevant, RAGSearchEngine, StoredChunk, VectorIndex};

fn index_of(similar: &[(u32, &str)]) -> VectorIndex {
    let mut index = VectorIndex::new(2);
    for (id, path) in similar {
        index.add_vector(*id, &vec![*id, 0], path, &format!("text {}", id)).unwrap();
    }
    index
}

fn ids(hits: &Vec<(u32, u32, String, String)>) -> Vec<u32> {
    hits.iter().map(|h| h.0).collect()
}

#[test]
fn a_vector_of_wrong_length_is_rejected() {
    let mut index = index_of(&[(1, "a"), (2, "b")]);
    let before = index.search_similar(&vec![0, 0], &vec![10, 20], 5).unwrap();
    let rejected = index.add_vector(3, &vec![1, 2, 3], "c", "text");
    assert_eq!(rejected, Err(RagError::DimensionMismatch { expected: 2, got: 3 }));
    assert_eq!(rejected.unwrap_err().message(), "Vector dimension mismatch: expected 2, got 3");
    assert_eq!(index.len(), 2);
    assert_eq!(index.search_similar(&vec![0, 0], &vec![10, 20], 5).unwrap(), before);
    assert_eq!(index.get_chunk_info(3), None);
}

#[test]
fn search_returns_the_most_similar_first() {
    let index = index_of(&[(10, "a"), (11, "b"), (12, "c"), (13, "d")]);
    let hits = index.search_similar(&vec![0, 0], &vec![500_000, 900_000, 500_000, 100_000], 3).unwrap();
    assert_eq!(ids(&hits), vec![11, 10, 12]);
    assert_eq!(hits[0], (11, 900_000, "b".to_string(), "text 11".to_string()));
    assert_eq!(hits[1].1, 500_000);
    let all = index.search_similar(&vec![0, 0], &vec![500_000, 900_000, 500_000, 100_000], 10).unwrap();
    assert_eq!(ids(&all), vec![11, 10, 12, 13]);
    assert_eq!(index.search_similar(&vec![0, 0], &vec![1, 2, 3, 4], 0).unwrap().len(), 0);
}

#[test]
fn equally_similar_entries_come_in_insertion_order() {
    let index = index_of(&[(5, "a"), (4, "b"), (3, "c"), (2, "d"), (1, "e")]);
    let hits = index.search_similar(&vec![0, 0], &vec![7, 7, 9, 7, 7], 4).unwrap();
    assert_eq!(ids(&hits), vec![3, 5, 4, 2]);
}

#[test]
fn search_agrees_with_a_stable_sort() {
    let mut index = VectorIndex::new(1);
    let mut sims = Vec::new();
    let mut seed: u32 = 12345;
    for id in 0..200u32 {
        index.add_vector(id, &vec![id], "p", "t").unwrap();
        seed = seed.wrapping_mul(1_103_515_245).wrapping_add(12_345);
        sims.push((seed >> 16) % 50);
    }
    let mut expected: Vec<(u32, u32)> = sims.iter().enumerate().map(|(i, s)| (i as u32, *s)).collect();
    expected.sort_by(|a, b| b.1.cmp(&a.1));
    for k in [0usize, 1, 7, 50, 200, 500] {
        let hits = index.search_similar(&vec![0], &sims, k).unwrap();
        let got: Vec<(u32, u32)> = hits.iter().map(|h| (h.0, h.1)).collect();
        let want: Vec<(u32, u32)> = expected.iter().take(k).cloned().collect();
        assert_eq!(got, want, "k = {}", k);
    }
}

#[test]
fn search_checks_the_query_and_the_similarities() {
    let index = index_of(&[(1, "a"), (2, "b")]);
    assert_eq!(
        index.search_similar(&vec![0], &vec![1, 2], 5),
        Err(RagError::DimensionMismatch { expected: 2, got: 1 })
    );
    let short = index.search_similar(&vec![0, 0], &vec![1], 5);
    assert_eq!(short, Err(RagError::ScoreCountMismatch { expected: 2, got: 1 }));
    assert_eq!(short.unwrap_err().message(), "Similarity count mismatch: expected 2, got 1");
    assert_eq!(
        index.search_similar(&vec![0, 0, 0], &vec![1], 5),
        Err(RagError::DimensionMismatch { expected: 2, got: 3 })
    );
}

#[test]
fn a_known_chunk_id_is_replaced_in_place() {
    let mut index = index_of(&[(1, "a"), (2, "b"), (3, "c")]);
    index.add_vector(2, &vec![9, 9], "b2", "new text").unwrap();
    assert_eq!(index.len(), 3);
    assert_eq!(index.get_chunk_info(2), Some(("b2".to_string(), "new text".to_string())));
    assert_eq!(index.entry(1).unwrap().vector, vec![9, 9]);
    let hits = index.search_similar(&vec![0, 0], &vec![5, 5, 5], 3).unwrap();
    assert_eq!(ids(&hits), vec![1, 2, 3]);
    assert_eq!(hits[1].2, "b2");
}

#[test]
fn clear_empties_the_index() {
    let mut index = index_of(&[(1, "a"), (2, "b")]);
    assert!(!index.is_empty());
    index.clear();
    assert!(index.is_empty());
    assert_eq!(index.len(), 0);
    assert_eq!(index.dimension(), 2);
    assert_eq!(index.get_chunk_info(1), None);
    assert!(index.entry(0).is_none());
    assert_eq!(index.search_similar(&vec![0, 0], &vec![], 5).unwrap().len(), 0);
    index.add_vector(1, &vec![1, 1], "a", "again").unwrap();
    assert_eq!(index.len(), 1);
}

#[test]
fn the_engine_drops_hits_below_its_threshold() {
    let mut engine = RAGSearchEngine::new(1, 100_000);
    for id in 0..6u32 {
        engine.add_chunk(id, &vec![id], &format!("doc{}", id), &format!("text {}", id)).unwrap();
    }
    let sims = vec![99_999, 100_000, 800_000, 50_000, 300_000, 300_000];
    let hits = engine.search_relevant_chunks("q", &vec![0], &sims, 3).unwrap();
    assert_eq!(ids(&hits), vec![2, 4, 5]);
    let hits = engine.search_relevant_chunks("q", &vec![0], &sims, 10).unwrap();
    assert_eq!(ids(&hits), vec![2, 4, 5, 1]);
    // Only the two times one most similar entries are looked at.
    let hits = engine.search_relevant_chunks("q", &vec![0], &vec![1, 2, 3, 900_000, 4, 5], 1).unwrap();
    assert_eq!(ids(&hits), vec![3]);
    assert_eq!(engine.search_relevant_chunks("q", &vec![0], &sims, 0).unwrap().len(), 0);
    assert_eq!(engine.search_relevant_chunks("q", &vec![0], &sims, usize::MAX).unwrap().len(), 4);
    assert_eq!(
        engine.search_relevant_chunks("q", &vec![0, 0], &sims, 3),
        Err(RagError::DimensionMismatch { expected: 1, got: 2 })
    );
}

#[test]
fn the_threshold_is_at_most_one() {
    let mut engine = RAGSearchEngine::new(1, 100_000);
    assert_eq!(engine.get_relevance_threshold(), 100_000);
    engine.set_relevance_threshold(250_000);
    assert_eq!(engine.get_relevance_threshold(), 250_000);
    engine.set_relevance_threshold(2_000_000);
    assert_eq!(engine.get_relevance_threshold(), 1_000_000);
    engine.set_relevance_threshold(0);
    assert_eq!(engine.get_relevance_threshold(), 0);
}

#[test]
fn context_text_of_the_engine() {
    let mut engine = RAGSearchEngine::new(1, 100_000);
    engine.add_chunk(7, &vec![1], "a.txt", "first text").unwrap();
    engine.add_chunk(8, &vec![2], "b.txt", "second text").unwrap();
    let context = engine.get_context_for_question("q", &vec![0], &vec![250_400, 912_600], 5).unwrap();
    assert_eq!(
        context,
        "--- Chunk 1 (Similarity: 0.913) ---\nSource: b.txt\nContent: second text\n\n--- Chunk 2 (Similarity: 0.250) ---\nSource: a.txt\nContent: first text\n\n"
    );
    assert_eq!(engine.get_context_for_question("q", &vec![0], &vec![1, 2], 5).unwrap(), "");
    engine.clear();
    assert_eq!(engine.len(), 0);
    assert_eq!(engine.get_relevance_threshold(), 100_000);
}

#[test]
fn keep_relevant_keeps_order() {
    let found = vec![
        (1, 900_000, "a".to_string(), "x".to_string()),
        (2, 10, "b".to_string(), "y".to_string()),
        (3, 500_000, "c".to_string(), "z".to_string()),
        (4, 400_000, "d".to_string(), "w".to_string()),
    ];
    assert_eq!(ids(&keep_relevant(&found, 400_000, 2)), vec![1, 3]);
    assert_eq!(ids(&keep_relevant(&found, 400_000, 9)), vec![1, 3, 4]);
    assert_eq!(ids(&keep_relevant(&found, 0, 9)), vec![1, 2, 3, 4]);
}

fn stored(chunk_id: u32, vector: Option<Vec<u32>>, text: &str) -> StoredChunk {
    StoredChunk { chunk_id, vector, document_path: "notes.txt".to_string(), chunk_text: text.to_string() }
}

#[test]
fn loading_passes_over_what_cannot_be_used() {
    let mut engine = RAGSearchEngine::new(2, 100_000);
    let count = engine.load_vectors(&vec![
        stored(1, Some(vec![1, 2]), "first"),
        stored(2, None, "unreadable"),
        stored(3, Some(vec![1, 2, 3]), "too long"),
        stored(4, Some(vec![3, 4]), "fourth"),
        stored(1, Some(vec![5, 6]), "first again"),
    ]);
    assert_eq!(count, 3);
    assert_eq!(engine.len(), 2);
    let index = engine.index();
    assert_eq!(index.get_chunk_info(1), Some(("notes.txt".to_string(), "first again".to_string())));
    assert_eq!(index.get_chunk_info(2), None);
    assert_eq!(index.get_chunk_info(3), None);
    assert_eq!(index.entry(0).map(|e| e.vector.clone()), Some(vec![5, 6]));
    assert_eq!(index.entry(1).map(|e| e.chunk_id), Some(4));
}

#[test]
fn loading_nothing_usable_leaves_the_index_as_it_was() {
    let mut engine = RAGSearchEngine::new(2, 100_000);
    assert!(engine.add_chunk(9, &vec![1, 1], "a.txt", "kept").is_ok());
    let count = engine.load_vectors(&vec![stored(1, None, "x"), stored(2, Some(vec![]), "y")]);
    assert_eq!(count, 0);
    assert_eq!(engine.len(), 1);
    assert_eq!(engine.index().get_chunk_info(9), Some(("a.txt".to_string(), "kept".to_string())));
}
