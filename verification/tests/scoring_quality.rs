use chunkymonkey::quality::{assess_context_quality, judge};
use chunkymonkey::scoring::{score_chunk_relevance, score_lowered, Relevance};
use chunkymonkey::types::ContextQuality;

fn c(s: &str) -> Vec<char> {
    s.chars().collect()
}

fn block(number: usize, similarity: &str, source: &str, content: &str) -> String {
    format!("--- Chunk {} (Similarity: {}) ---\nSource: {}\nContent: {}\n\n", number, similarity, source, content)
}

#[test]
fn relevance_of_the_fox_sentence() {
    // Five question words; "the" and "fox" are found, verbatim and
    // overlapping; the length of 44 characters adds a tenth.
    let score = score_chunk_relevance("The quick brown fox jumps over the lazy dog.", "What does the fox do?");
    assert_eq!(score, Relevance { units: 20 * 2 + 12 * 2 + 5 * 4, scale: 200 });
}

#[test]
fn relevance_counts_terms_and_bonuses() {
    let score = score_chunk_relevance("fn parse(path) { // reads the file }", "How does the function parse a file?");
    assert_eq!(score, Relevance { units: 170, scale: 240 });
}

#[test]
fn relevance_is_at_most_one() {
    let score = score_chunk_relevance("def function class x // comment padding to thirty chars", "function");
    assert_eq!(score, Relevance { units: 40, scale: 40 });
}

#[test]
fn relevance_without_question_words() {
    // No word of more than two bytes: only terms and bonuses count.
    let score = score_chunk_relevance("a chunk of some thirty characters", "is it so");
    assert_eq!(score, Relevance { units: 4, scale: 40 });
    let score = score_chunk_relevance("short", "");
    assert_eq!(score, Relevance { units: 0, scale: 40 });
}

#[test]
fn relevance_ignores_letter_case() {
    let a = score_chunk_relevance("THE QUICK BROWN FOX", "the fox");
    let b = score_chunk_relevance("the quick brown fox", "THE FOX");
    assert_eq!(a, b);
    assert_eq!(a, Relevance { units: 20 * 2 + 12 * 2, scale: 80 });
}

#[test]
fn word_length_is_counted_in_bytes() {
    // "né" takes three bytes and counts as a question word, "ab" does not.
    let score = score_chunk_relevance("né", "né ab");
    assert_eq!(score, Relevance { units: 32, scale: 40 });
}

#[test]
fn length_bonus_is_for_thirty_to_five_hundred_characters() {
    let question = c("zzz");
    for (length, bonus) in [(29usize, 0u128), (30, 4), (500, 4), (501, 2), (10_000, 2)] {
        let score = score_lowered(&c("x"), &question, length);
        assert_eq!(score, Relevance { units: bonus, scale: 40 }, "length {}", length);
    }
}

#[test]
fn explanatory_questions_prefer_longer_content() {
    let score = score_lowered(&c("x"), &c("why"), 101);
    assert_eq!(score, Relevance { units: 8, scale: 40 });
    let score = score_lowered(&c("x"), &c("why"), 100);
    assert_eq!(score, Relevance { units: 4, scale: 40 });
}

#[test]
fn verdict_thresholds() {
    // One score of units / 200.
    for (units, quality) in [
        (200u128, ContextQuality::Excellent),
        (160, ContextQuality::Excellent),
        (159, ContextQuality::Good),
        (120, ContextQuality::Good),
        (119, ContextQuality::Acceptable),
        (80, ContextQuality::Acceptable),
        (79, ContextQuality::Poor),
        (0, ContextQuality::Poor),
    ] {
        let (whole, rest) = if units == 200 { (1, 0) } else { (0, units) };
        assert_eq!(judge(whole, rest, 200, 1), quality, "units {}", units);
    }
    assert_eq!(judge(0, 0, 40, 0), ContextQuality::Poor);
}

#[test]
fn verdict_is_taken_from_the_mean() {
    // Two scores that add up to 1.6: the mean is 0.8 exactly.
    assert_eq!(judge(1, 18, 30, 2), ContextQuality::Excellent);
    assert_eq!(judge(1, 17, 30, 2), ContextQuality::Good);
    // Three scores that add up to 1.2: the mean is 0.4.
    assert_eq!(judge(1, 6, 30, 3), ContextQuality::Acceptable);
    assert_eq!(judge(1, 5, 30, 3), ContextQuality::Poor);
}

#[test]
fn context_of_the_fox_sentence_is_acceptable() {
    let context = block(1, "0.900", "notes.txt", "The quick brown fox jumps over the lazy dog.");
    assert_eq!(assess_context_quality(&context, "What does the fox do?"), ContextQuality::Acceptable);
}

#[test]
fn context_without_chunks_is_poor() {
    assert_eq!(assess_context_quality("", "What does the fox do?"), ContextQuality::Poor);
    assert_eq!(assess_context_quality("no markers here, the fox", "the fox"), ContextQuality::Poor);
    assert_eq!(assess_context_quality("--- Chunk 1 ---\nSource: a\n", "the fox"), ContextQuality::Poor);
}

#[test]
fn quality_is_the_mean_over_chunks() {
    let good = block(1, "0.9", "a.txt", "function parse reads the file and returns the code of the function");
    let question = "function parse file";
    let alone = assess_context_quality(&good, question);
    assert_eq!(alone, ContextQuality::Excellent);
    let diluted = format!("{}{}{}", good, block(2, "0.2", "b.txt", "zz"), block(3, "0.2", "c.txt", "yy"));
    assert_eq!(assess_context_quality(&diluted, question), ContextQuality::Poor);
}

#[test]
fn more_verbatim_words_never_lower_the_verdict() {
    let question = "alpha beta gamma delta";
    let contents = [
        "nothing of the question is in this chunk at all",
        "alpha is the only word of the question in it",
        "alpha and beta are the words of the question",
        "alpha and beta and gamma are the three words",
        "alpha and beta and gamma and delta all four",
    ];
    let rank = |q: ContextQuality| match q {
        ContextQuality::Poor => 0,
        ContextQuality::Acceptable => 1,
        ContextQuality::Good => 2,
        ContextQuality::Excellent => 3,
    };
    let mut last = 0;
    let mut seen = Vec::new();
    for content in contents {
        let quality = assess_context_quality(&block(1, "0.5", "a.txt", content), question);
        assert!(rank(quality) >= last);
        last = rank(quality);
        seen.push(quality);
    }
    assert_eq!(
        seen,
        vec![
            ContextQuality::Poor,
            ContextQuality::Poor,
            ContextQuality::Acceptable,
            ContextQuality::Good,
            ContextQuality::Excellent
        ]
    );
}

#[test]
fn a_longer_chunk_can_score_lower() {
    // Twenty question words; the second chunk holds one more of them but is
    // longer than five hundred characters and loses half of the length bonus.
    let words: Vec<String> = (0..20).map(|i| format!("word{:02}", i)).collect();
    let question = words.join(" ");
    let filler = "x".repeat(400);
    let first = format!("{} {}", words[..9].join(" "), filler);
    let second = format!("{} {} {}", words[..10].join(" "), filler, "y".repeat(100));
    let a = score_chunk_relevance(&first, &question);
    let b = score_chunk_relevance(&second, &question);
    assert_eq!(a, Relevance { units: 20 * 9 + 12 * 9 + 20 * 4, scale: 800 });
    assert_eq!(b, Relevance { units: 20 * 10 + 12 * 10 + 20 * 2, scale: 800 });
    assert!(b.units < a.units);
}

#[test]
fn a_longer_chunk_can_get_a_lower_verdict() {
    // Every question word holds "how", so content of more than a hundred
    // characters has a bonus. The first chunk holds five of the twenty words
    // and is of at most five hundred characters: two fifths exactly. The
    // second holds six of them but is longer, and falls under two fifths.
    let words: Vec<String> = (0..20).map(|i| format!("show{:02}", i)).collect();
    let question = words.join(" ");
    let first = format!("{} {}", words[..5].join(" "), "x".repeat(300));
    let second = format!("{} {}", words[..6].join(" "), "x".repeat(600));
    let a = score_chunk_relevance(&format!("Content: {}\n\n", first), &question);
    let b = score_chunk_relevance(&format!("Content: {}\n\n", second), &question);
    assert_eq!(a, Relevance { units: 20 * 5 + 12 * 5 + 20 * (4 + 4), scale: 800 });
    assert_eq!(b, Relevance { units: 20 * 6 + 12 * 6 + 20 * (2 + 4), scale: 800 });
    assert_eq!(
        assess_context_quality(&block(1, "0.9", "a.txt", &first), &question),
        ContextQuality::Acceptable
    );
    assert_eq!(assess_context_quality(&block(1, "0.9", "a.txt", &second), &question), ContextQuality::Poor);
}
