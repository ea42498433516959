use chunkymonkey::display::{format_duration, progress_percentage};
use chunkymonkey::indexer::{FileOutcome, Indexer, IndexingSummary, MAX_FILE_BYTES};
use chunkymonkey::stored::{count_meaningful, is_worth_searching};

#[test]
fn durations_under_a_minute_show_seconds_only() {
    assert_eq!(format_duration(0), "0s");
    assert_eq!(format_duration(42), "42s");
    assert_eq!(format_duration(59), "59s");
}

#[test]
fn durations_from_a_minute_on_show_minutes_and_seconds() {
    assert_eq!(format_duration(60), "1m 0s");
    assert_eq!(format_duration(187), "3m 7s");
    assert_eq!(format_duration(3600), "60m 0s");
}

#[test]
fn progress_percentage_divides_by_the_progress() {
    assert_eq!(progress_percentage(4, 2), Some(50));
    assert_eq!(progress_percentage(3, 10), Some(333));
    assert_eq!(progress_percentage(7, 0), Some(0));
}

#[test]
fn progress_percentage_has_no_value_without_progress_or_room() {
    assert_eq!(progress_percentage(0, 10), None);
    assert_eq!(progress_percentage(1, u64::MAX / 100 + 1), None);
    assert_eq!(progress_percentage(1, u64::MAX / 100), Some(u64::MAX / 100 * 100));
}

#[test]
fn a_list_names_its_patterns() {
    let indexer = Indexer::from_list("*.txt, *.md ,,notes");
    assert_eq!(indexer.patterns, vec!["*.txt".to_string(), "*.md".to_string(), "notes".to_string()]);
    assert!(indexer.matches_patterns("README.MD"));
    assert!(indexer.matches_patterns("my_notes.rs"));
    assert!(!indexer.matches_patterns("main.rs"));
}

#[test]
fn an_empty_list_chooses_every_file() {
    let indexer = Indexer::from_list("  ");
    assert!(indexer.patterns.is_empty());
    assert!(indexer.matches_patterns("anything.bin"));
    let all = Indexer::from_list("*");
    assert_eq!(all.patterns, vec!["*".to_string()]);
    assert!(all.matches_patterns("anything.bin"));
}

#[test]
fn a_file_is_selected_by_name_and_size() {
    let indexer = Indexer::from_list("*.txt");
    assert!(indexer.selects("a.txt", 0));
    assert!(indexer.selects("a.TXT", MAX_FILE_BYTES));
    assert!(!indexer.selects("a.txt", MAX_FILE_BYTES + 1));
    assert!(!indexer.selects("a.md", 10));
}

#[test]
fn a_batch_counts_every_outcome_and_goes_on() {
    let mut summary = IndexingSummary::new(4);
    assert!(summary.has_more());
    assert!(summary.all_succeeded());
    summary.record(FileOutcome::Added);
    summary.record(FileOutcome::TimedOut);
    assert!(summary.has_more());
    summary.record(FileOutcome::Skipped);
    summary.record(FileOutcome::Failed);
    assert_eq!(summary, IndexingSummary { indexed: 1, skipped: 1, failed: 2, total: 4 });
    assert!(!summary.has_more());
    assert!(!summary.all_succeeded());
}

#[test]
fn short_or_empty_looking_chunks_are_not_searched() {
    let letters = "abcdefghij".repeat(5);
    assert!(is_worth_searching(&letters));
    assert!(!is_worth_searching(&letters[..49]));
    let mostly_marks = format!("{}{}", "a1".repeat(14), "-".repeat(40));
    assert!(!is_worth_searching(&mostly_marks));
    let enough = format!("{}{}", "a1".repeat(15), "-".repeat(40));
    assert!(is_worth_searching(&enough));
    assert!(!is_worth_searching(&"-".repeat(80)));
}

#[test]
fn letters_and_digits_of_any_script_count() {
    assert_eq!(count_meaningful(&"héllo wörld 42 ;-)".chars().collect()), 12);
    assert_eq!(count_meaningful(&"日本語のテキスト".chars().collect()), 8);
    assert_eq!(count_meaningful(&" \t\n!?".chars().collect()), 0);
    assert!(is_worth_searching(&"日本語のテキスト".repeat(4)));
}
