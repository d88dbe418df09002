use flashcard_core::matching::{
    check_answer, levenshtein_distance, normalize_whitespace, word_diff, AnswerCheck, DiffType,
};
use flashcard_core::types::MatchingMode;

fn similarity(c: &AnswerCheck) -> f64 {
    if c.scale == 0 {
        1.0
    } else {
        1.0 - c.distance as f64 / c.scale as f64
    }
}

fn is_correct(typed: &str, correct: &str, mode: MatchingMode, threshold: f64) -> bool {
    similarity(&check_answer(typed, correct, mode)) >= threshold
}

#[test]
fn test_levenshtein_distance() {
    assert_eq!(levenshtein_distance("", ""), 0);
    assert_eq!(levenshtein_distance("abc", "abc"), 0);
    assert_eq!(levenshtein_distance("abc", ""), 3);
    assert_eq!(levenshtein_distance("", "abc"), 3);
    assert_eq!(levenshtein_distance("kitten", "sitting"), 3);
    assert_eq!(levenshtein_distance("saturday", "sunday"), 3);
}

#[test]
fn test_compare_exact() {
    let result = check_answer("hello", "hello", MatchingMode::Exact);
    assert!(similarity(&result) >= 0.8);
    assert_eq!(similarity(&result), 1.0);
    assert!(!is_correct("Hello", "hello", MatchingMode::Exact, 0.8));
}

#[test]
fn test_compare_case_insensitive() {
    assert!(is_correct("Hello", "hello", MatchingMode::CaseInsensitive, 0.8));
    assert!(is_correct("HELLO WORLD", "hello world", MatchingMode::CaseInsensitive, 0.8));
}

#[test]
fn test_compare_fuzzy() {
    assert!(is_correct("helo", "hello", MatchingMode::Fuzzy, 0.8));
    assert!(!is_correct("xyz", "hello", MatchingMode::Fuzzy, 0.8));
}

#[test]
fn test_whitespace_normalization() {
    assert!(is_correct("  hello   world  ", "hello world", MatchingMode::Exact, 0.8));
}

#[test]
fn fuzzy_threshold_boundary() {
    let c = check_answer("helo", "hello", MatchingMode::Fuzzy);
    assert_eq!(c.distance, 1);
    assert_eq!(c.scale, 5);
    assert!((similarity(&c) - 0.8).abs() < 1e-12);
    assert!(is_correct("helo", "hello", MatchingMode::Fuzzy, 0.8));
    assert!(!is_correct("helo", "hello", MatchingMode::Fuzzy, 0.81));
}

#[test]
fn same_answer_is_correct_in_every_mode() {
    for mode in [MatchingMode::Exact, MatchingMode::CaseInsensitive, MatchingMode::Fuzzy] {
        let c = check_answer(" Ünïcode  text ", " Ünïcode  text ", mode);
        assert_eq!(c.distance, 0);
        assert!(is_correct("x y", "x y", mode, 1.0));
    }
}

#[test]
fn levenshtein_is_symmetric_on_examples() {
    assert_eq!(levenshtein_distance("flaw", "lawn"), levenshtein_distance("lawn", "flaw"));
    assert_eq!(levenshtein_distance("flaw", "lawn"), 2);
    assert_eq!(levenshtein_distance("héllo", "hello"), 1);
}

#[test]
fn similarity_stays_in_unit_range() {
    let c = check_answer("abc", "xyz", MatchingMode::Fuzzy);
    assert_eq!(c.distance, 3);
    assert_eq!(similarity(&c), 0.0);
    let e = check_answer("", "", MatchingMode::Fuzzy);
    assert_eq!(e.scale, 0);
    assert_eq!(similarity(&e), 1.0);
    let f = check_answer("ABC", "abc", MatchingMode::Fuzzy);
    assert_eq!(similarity(&f), 1.0);
}

#[test]
fn normalized_forms_are_reported() {
    let c = check_answer("  a \t b\n", "c   d", MatchingMode::Exact);
    assert_eq!(c.typed_normalized, "a b");
    assert_eq!(c.correct_normalized, "c d");
    assert_eq!(c.distance, 1);
    assert_eq!(c.scale, 1);
}

#[test]
fn normalize_collapses_whitespace() {
    assert_eq!(normalize_whitespace("  hello   world  "), "hello world");
    assert_eq!(normalize_whitespace(""), "");
    assert_eq!(normalize_whitespace(" \u{3000}x\u{a0}y "), "x y");
}

#[test]
fn case_insensitive_lowercases() {
    let c = check_answer("ÄBC", "äbc", MatchingMode::CaseInsensitive);
    assert_eq!(c.distance, 0);
    let d = check_answer("ÄBC", "äbc", MatchingMode::Exact);
    assert_eq!(d.distance, 1);
}

fn kinds(typed: &str, correct: &str) -> Vec<(String, DiffType)> {
    word_diff(typed, correct).into_iter().map(|s| (s.text, s.diff_type)).collect()
}

#[test]
fn word_diff_same_words() {
    assert_eq!(
        kinds("The Cat", "the cat"),
        vec![("The".to_string(), DiffType::Same), ("Cat".to_string(), DiffType::Same)]
    );
}

#[test]
fn word_diff_missing_word_is_added() {
    assert_eq!(
        kinds("the cat", "the black cat"),
        vec![
            ("the".to_string(), DiffType::Same),
            ("black".to_string(), DiffType::Added),
            ("cat".to_string(), DiffType::Same),
        ]
    );
}

#[test]
fn word_diff_extra_word_is_removed() {
    assert_eq!(
        kinds("the big cat", "the cat"),
        vec![
            ("the".to_string(), DiffType::Same),
            ("big".to_string(), DiffType::Removed),
            ("cat".to_string(), DiffType::Same),
        ]
    );
}

#[test]
fn word_diff_substitution_and_tails() {
    assert_eq!(
        kinds("a x", "a y z"),
        vec![
            ("a".to_string(), DiffType::Same),
            ("x".to_string(), DiffType::Removed),
            ("y".to_string(), DiffType::Added),
            ("z".to_string(), DiffType::Added),
        ]
    );
    assert_eq!(kinds("", "q"), vec![("q".to_string(), DiffType::Added)]);
    assert_eq!(kinds("q", ""), vec![("q".to_string(), DiffType::Removed)]);
}

#[test]
fn word_diff_two_word_lookahead() {
    assert_eq!(
        kinds("d", "a b d"),
        vec![
            ("a".to_string(), DiffType::Added),
            ("b".to_string(), DiffType::Added),
            ("d".to_string(), DiffType::Same),
        ]
    );
}
