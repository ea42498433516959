use chunkymonkey::chunker::{chunk_text, chunk_text_internal};

fn texts(chunks: &Vec<chunkymonkey::types::Chunk>) -> Vec<String> {
    chunks.iter().map(|c| c.text.clone()).collect()
}

#[test]
fn one_sentence_is_one_chunk() {
    let chunks = chunk_text_internal("  The quick brown fox jumps over the lazy dog.\n", 100, 20, 50);
    assert_eq!(texts(&chunks), vec!["The quick brown fox jumps over the lazy dog."]);
    assert_eq!(chunks[0].chunk_index, 0);
    assert_eq!(chunks[0].id, 0);
    assert_eq!(chunks[0].document_id, 0);
}

#[test]
fn empty_text_has_no_chunks() {
    assert_eq!(chunk_text_internal("", 100, 20, 50).len(), 0);
    assert_eq!(chunk_text("", 50).len(), 0);
    assert_eq!(chunk_text_internal("   \n\t ", 100, 20, 50).len(), 0);
}

#[test]
fn windows_are_cut_at_the_last_space() {
    // The window of ten characters "aaaa bbbb " is cut at its last space,
    // index 9; the next window starts two characters before index 10.
    let chunks = chunk_text_internal("aaaa bbbb cccc dddd", 10, 2, 50);
    assert_eq!(texts(&chunks), vec!["aaaa bbbb", "b cccc", "c dddd"]);
    for (i, chunk) in chunks.iter().enumerate() {
        assert_eq!(chunk.chunk_index, i);
        assert_eq!(chunk.id as usize, i);
    }
}

#[test]
fn windows_are_cut_at_a_line_feed_where_there_is_no_space() {
    let chunks = chunk_text_internal("aaaa\nbbbbbbbbbb", 8, 0, 50);
    assert_eq!(texts(&chunks), vec!["aaaa", "bbbbbbbb", "bb"]);
}

#[test]
fn a_word_without_boundary_is_cut_at_the_window() {
    let word = "x".repeat(25);
    let chunks = chunk_text_internal(&word, 10, 3, 50);
    assert_eq!(texts(&chunks), vec!["x".repeat(10), "x".repeat(10), "x".repeat(10), "x".repeat(4)]);
    for chunk in &chunks {
        assert!(chunk.text.chars().count() <= 10);
    }
}

#[test]
fn the_number_of_chunks_is_capped() {
    let text = "word ".repeat(100);
    let chunks = chunk_text_internal(&text, 10, 0, 3);
    assert_eq!(chunks.len(), 3);
    assert_eq!(chunk_text_internal(&text, 10, 0, 0).len(), 0);
}

#[test]
fn a_window_size_of_zero_gives_no_chunks() {
    assert_eq!(chunk_text_internal("some text", 0, 0, 50).len(), 0);
}

#[test]
fn an_overlap_beyond_the_window_still_advances() {
    let chunks = chunk_text_internal("abcdefghij", 3, 10, 50);
    assert_eq!(texts(&chunks), vec!["abc", "bcd", "cde", "def", "efg", "fgh", "ghi", "hij"]);
}

/// The windows as the sliding rule gives them, written out once more: each
/// with its start, its stop and its trimmed text.
fn windows(text: &str, size: usize, overlap: usize, max_chunks: usize) -> Vec<(usize, usize, String)> {
    let chars: Vec<char> = text.chars().collect();
    let len = chars.len();
    let mut out = Vec::new();
    let mut kept = 0;
    let mut start = 0;
    while start < len && kept < max_chunks {
        let end = (start + size).min(len);
        let mut stop = end;
        if end < len {
            let from = if end > 100 && end - 100 > start { end - 100 } else { start };
            let range = &chars[from..end];
            if let Some(i) = range.iter().rposition(|&ch| ch == ' ') {
                stop = from + i;
            } else if let Some(i) = range.iter().rposition(|&ch| ch == '\n') {
                stop = from + i;
            }
        }
        let resume = if stop <= start {
            stop = start + 1;
            start + 1
        } else if stop == end {
            end
        } else {
            stop + 1
        };
        let piece: String = chars[start..stop].iter().collect();
        let piece = piece.trim().to_string();
        if !piece.is_empty() {
            kept += 1;
        }
        out.push((start, stop, piece));
        start = if resume < len { resume.saturating_sub(overlap).max(start + 1) } else { resume };
    }
    out
}

#[test]
fn every_character_that_is_not_whitespace_lies_in_a_chunk() {
    let text = "Lorem ipsum dolor sit amet, consectetur adipiscing elit.\nSed do eiusmod tempor incididunt ut labore et dolore magna aliqua. Ut enim ad minim veniam, quis nostrud exercitation ullamco laboris nisi ut aliquip ex ea commodo consequat.";
    let chars: Vec<char> = text.chars().collect();
    for (size, overlap) in [(20usize, 5usize), (37, 0), (120, 30), (7, 7), (1, 0), (3, 1), (250, 249)] {
        let chunks = chunk_text_internal(text, size, overlap, 10_000);
        let expected = windows(text, size, overlap, 10_000);
        let expected_texts: Vec<String> =
            expected.iter().filter(|w| !w.2.is_empty()).map(|w| w.2.clone()).collect();
        assert_eq!(texts(&chunks), expected_texts, "size {} overlap {}", size, overlap);
        let mut covered = vec![false; chars.len()];
        for (start, stop, piece) in &expected {
            assert!(piece.chars().count() <= size);
            for k in *start..*stop {
                covered[k] = true;
            }
        }
        for (k, ch) in chars.iter().enumerate() {
            assert!(ch.is_whitespace() || covered[k], "size {} overlap {} index {}", size, overlap, k);
        }
        for chunk in &chunks {
            assert!(!chunk.text.is_empty());
            assert!(!chunk.text.starts_with(char::is_whitespace));
            assert!(!chunk.text.ends_with(char::is_whitespace));
        }
    }
}

#[test]
fn a_reached_cap_leaves_text_without_chunk() {
    let chunks = chunk_text_internal("a b c", 1, 0, 1);
    assert_eq!(texts(&chunks), vec!["a"]);
}

#[test]
fn default_chunking_uses_windows_of_a_thousand_characters() {
    let text = "abcdefghi ".repeat(250);
    let chunks = chunk_text(&text, 50);
    assert_eq!(chunks.len(), 3);
    // The first window ends at the space at index 999.
    assert_eq!(chunks[0].text.chars().count(), 999);
    // The second starts two hundred characters before index 1000.
    assert!(chunks[1].text.starts_with("abcdefghi abcdefghi"));
    assert_eq!(chunks[1].text.chars().count(), 999);
    // The third starts at index 1600 and reaches the end of the text.
    assert_eq!(chunks[2].text.chars().count(), 899);
    for chunk in &chunks {
        assert!(chunk.text.chars().count() <= 1000);
    }
}

#[test]
fn large_documents_are_cut_off_between_characters() {
    // Each character takes three bytes; the cap of 5 MiB is not a multiple of
    // three.
    let count = 5 * 1024 * 1024 / 3 + 10;
    let text = "日".repeat(count);
    let chunks = chunk_text(&text, usize::MAX);
    let total: usize = chunks.iter().map(|c| c.text.chars().count()).sum();
    assert!(total >= 5 * 1024 * 1024 / 3);
    for chunk in &chunks {
        assert!(chunk.text.chars().all(|ch| ch == '日'));
    }
}

#[test]
fn cutting_at_spaces_shortens_the_steps() {
    // Every window of four characters but the last is cut back to its last
    // space, so the windows advance by two characters, not by three.
    let text = "a b c d e f g h i j";
    let chunks = chunk_text_internal(text, 4, 1, 50);
    assert_eq!(texts(&chunks), vec!["a b", "c", "d", "e", "f", "g", "h", "i j"]);
    assert!(chunks.len() > text.len() / (4 - 1) + 1);
    assert!(chunks.len() <= text.len());
}
