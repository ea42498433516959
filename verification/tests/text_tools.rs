use chunkymonkey::number::{parse_similarity, push_decimal, push_fixed3};
use chunkymonkey::pattern::{contains, find, remove_all, split, starts_with};
use chunkymonkey::split::{join, lines, split_whitespace};
use chunkymonkey::text::{byte_len, char_is_space, chars_of, lowercase, string_of, trim};

fn c(s: &str) -> Vec<char> {
    s.chars().collect()
}

fn strings(parts: &Vec<Vec<char>>) -> Vec<String> {
    parts.iter().map(|p| p.iter().collect()).collect()
}

#[test]
fn chars_and_strings_round_trip() {
    assert_eq!(chars_of("héllo"), c("héllo"));
    assert_eq!(string_of(&c("héllo")), "héllo");
    assert_eq!(chars_of(""), Vec::<char>::new());
}

#[test]
fn whitespace_is_what_std_calls_whitespace() {
    let mut code: u32 = 0;
    while code <= 0x3100 {
        if let Some(ch) = char::from_u32(code) {
            assert_eq!(char_is_space(ch), ch.is_whitespace(), "code point {}", code);
        }
        code += 1;
    }
}

#[test]
fn trim_removes_whitespace_at_both_ends_only() {
    assert_eq!(trim(&c("  a b \n")), c("a b"));
    assert_eq!(trim(&c("\t\u{3000}x")), c("x"));
    assert_eq!(trim(&c("   ")), c(""));
    assert_eq!(trim(&c("")), c(""));
    assert_eq!(trim(&c("ab")), c("ab"));
}

#[test]
fn words_are_maximal_runs_without_whitespace() {
    assert_eq!(strings(&split_whitespace(&c("  The quick\tbrown\n\nfox "))), vec!["The", "quick", "brown", "fox"]);
    assert_eq!(split_whitespace(&c(" \n ")).len(), 0);
    assert_eq!(strings(&split_whitespace(&c("one"))), vec!["one"]);
}

#[test]
fn lines_end_at_line_feeds() {
    assert_eq!(strings(&lines(&c("a\nb\r\nc"))), vec!["a", "b", "c"]);
    assert_eq!(strings(&lines(&c("a\n"))), vec!["a"]);
    assert_eq!(strings(&lines(&c("a\n\nb"))), vec!["a", "", "b"]);
    assert_eq!(strings(&lines(&c("a\r"))), vec!["a\r"]);
    assert_eq!(lines(&c("")).len(), 0);
    assert_eq!(strings(&lines(&c("\n"))), vec![""]);
}

#[test]
fn lines_agree_with_std_on_samples() {
    for sample in ["", "x", "x\n", "\nx", "a\r\nb\r\n", "a\rb\nc", "\r\n", "\n\n\n", "end\r"] {
        let expected: Vec<String> = sample.lines().map(|l| l.to_string()).collect();
        assert_eq!(strings(&lines(&c(sample))), expected, "sample {:?}", sample);
    }
}

#[test]
fn join_puts_the_separator_between_parts() {
    assert_eq!(join(&vec![c("a"), c("b"), c("c")], &c(", ")), c("a, b, c"));
    assert_eq!(join(&vec![c("a")], &c(", ")), c("a"));
    assert_eq!(join(&vec![], &c(", ")), c(""));
}

#[test]
fn find_gives_the_first_occurrence() {
    assert_eq!(find(&c("abcabc"), &c("bc")), Some(1));
    assert_eq!(find(&c("abcabc"), &c("cab")), Some(2));
    assert_eq!(find(&c("abc"), &c("abcd")), None);
    assert_eq!(find(&c("abc"), &c("")), Some(0));
    assert_eq!(find(&c(""), &c("")), Some(0));
    assert_eq!(find(&c(""), &c("a")), None);
    assert!(contains(&c("needle in hay"), &c("in")));
    assert!(!contains(&c("needle in hay"), &c("inn")));
    assert!(starts_with(&c("Source: x"), &c("Source: ")));
    assert!(!starts_with(&c(" Source: x"), &c("Source: ")));
}

#[test]
fn remove_all_agrees_with_replace_on_samples() {
    for (text, pattern) in [("Content: a Content: b", "Content: "), ("aaa", "aa"), ("abab", "ab"), ("xyz", "q"), ("", "a"), ("aXbXc", "X")] {
        assert_eq!(string_of(&remove_all(&c(text), &c(pattern))), text.replace(pattern, ""), "{:?} without {:?}", text, pattern);
    }
    assert_eq!(remove_all(&c("abc"), &c("")), c("abc"));
}

#[test]
fn split_agrees_with_std_on_samples() {
    for (text, sep) in [("a--- Chunkb--- Chunkc", "--- Chunk"), ("--- Chunk 1", "--- Chunk"), ("no separator", "--- Chunk"), ("", "x"), ("xx", "x"), ("aaa", "aa")] {
        let expected: Vec<String> = text.split(sep).map(|p| p.to_string()).collect();
        assert_eq!(strings(&split(&c(text), &c(sep))), expected, "{:?} split at {:?}", text, sep);
    }
}

#[test]
fn lowercase_is_the_lowercase_of_std() {
    assert_eq!(lowercase(&c("Hello WORLD Ünï")), c("hello world ünï"));
    assert_eq!(lowercase(&c("ΑΒΓ")), c("αβγ"));
    assert_ne!(lowercase(&c("ABC")), c("ABC"));
}

#[test]
fn byte_length_is_the_utf8_length() {
    for sample in ["", "abc", "héllo", "日本語", "🚀 go", "\u{7f}\u{80}\u{7ff}\u{800}\u{ffff}\u{10000}"] {
        assert_eq!(byte_len(&c(sample)), sample.len() as u128, "sample {:?}", sample);
    }
}

#[test]
fn decimal_text_of_numbers() {
    for n in [0u128, 7, 10, 42, 1000, 18446744073709551616] {
        let mut out = Vec::new();
        push_decimal(&mut out, n);
        assert_eq!(string_of(&out), format!("{}", n));
    }
}

#[test]
fn similarity_is_shown_with_three_decimals() {
    for (millionths, text) in [(0u32, "0.000"), (853_000, "0.853"), (853_499, "0.853"), (853_500, "0.854"), (999_500, "1.000"), (1_000_000, "1.000"), (100_000, "0.100"), (1_234_567, "1.235"), (4_294_967_295, "4294.967")] {
        let mut out = Vec::new();
        push_fixed3(&mut out, millionths);
        assert_eq!(string_of(&out), text);
    }
}

#[test]
fn similarity_is_read_from_plain_decimals() {
    assert_eq!(parse_similarity(&c("0.853")), Some(853_000));
    assert_eq!(parse_similarity(&c("1")), Some(1_000_000));
    assert_eq!(parse_similarity(&c("1.")), Some(1_000_000));
    assert_eq!(parse_similarity(&c("0.1234569")), Some(123_456));
    assert_eq!(parse_similarity(&c("0.5")), Some(500_000));
    assert_eq!(parse_similarity(&c("007.25")), Some(7_250_000));
    assert_eq!(parse_similarity(&c("4294.967295")), Some(4_294_967_295));
    assert_eq!(parse_similarity(&c("4294.967296")), None);
    assert_eq!(parse_similarity(&c("99999999999999999999999")), None);
    assert_eq!(parse_similarity(&c("")), None);
    assert_eq!(parse_similarity(&c(".5")), None);
    assert_eq!(parse_similarity(&c("-0.5")), None);
    assert_eq!(parse_similarity(&c("1e3")), None);
    assert_eq!(parse_similarity(&c("0.5.1")), None);
    assert_eq!(parse_similarity(&c("0.x")), None);
    assert_eq!(parse_similarity(&c(" 0.5")), None);
}

#[test]
fn what_is_written_is_read_back() {
    for millionths in [0u32, 1000, 853_000, 1_000_000, 2_345_000] {
        let mut out = Vec::new();
        push_fixed3(&mut out, millionths);
        assert_eq!(parse_similarity(&out), Some(millionths));
    }
}
