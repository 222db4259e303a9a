use openfairdb::entities::Entry;
use openfairdb::similarity::{similar_title, words_equal_except_k_words};

fn entry(title: &str, description: &str) -> Entry {
    Entry::new(title.to_string(), description.to_string())
}

#[test]
fn test_words_equal() {
    assert_eq!(true, words_equal_except_k_words("ab abc a", "ab abc b", 1));
    assert_eq!(true, words_equal_except_k_words("ab abc a", "abc ab", 1));
    assert_eq!(true, words_equal_except_k_words("ab ac a", "abc ab ab", 2));
    assert_eq!(false, words_equal_except_k_words("a a a", "ab abc", 2));
}

#[test]
fn test_similar_title() {
    let e1 = entry("0123456789", "Hallo! Ein Eintrag");
    let e2 = entry("01234567", "allo! Ein Eintra");
    let e3 = entry("eins zwei drei", "allo! Ein Eintra");
    let e4 = entry("eins zwei fünf sechs", "allo! Ein Eintra");

    assert_eq!(true, similar_title(&e1, &e2, 20, 0)); // only 2 characters changed
    assert_eq!(true, similar_title(&e1, &e2, 10, 0)); // the 8 shared positions agree
    assert_eq!(true, similar_title(&e3, &e4, 0, 2)); // only 2 words changed
    assert_eq!(false, similar_title(&e3, &e4, 0, 1)); // more than 1 word changed
}

#[test]
fn single_words_are_never_word_similar() {
    assert!(!words_equal_except_k_words("Eintrag", "Eintrag", 0));
    assert!(!words_equal_except_k_words("Eintrag", "Eintrag", 10));
    assert!(!words_equal_except_k_words("  Eintrag ", "Anders", 3));
}

#[test]
fn single_words_can_still_be_char_similar() {
    let e1 = entry("Eintrag", "");
    let e2 = entry("Eintrag", "");
    assert!(similar_title(&e1, &e2, 0, 5));
}

#[test]
fn words_are_split_on_any_white_space() {
    assert!(words_equal_except_k_words("ab\tcd", "cd  ab", 0));
    assert!(words_equal_except_k_words("ab\ncd x", "cd ab", 1));
    assert!(!words_equal_except_k_words("ab\ncd x", "cd ab", 0));
}

#[test]
fn words_are_compared_case_sensitively() {
    assert!(!words_equal_except_k_words("Ein Eintrag", "ein eintrag", 1));
    assert!(words_equal_except_k_words("Ein Eintrag", "ein eintrag", 2));
}

#[test]
fn repeated_words_count_each_time() {
    // the set is built from "x y", and each "z" of the other text counts
    assert!(!words_equal_except_k_words("x y", "z z z", 2));
    assert!(words_equal_except_k_words("x y", "z z z", 3));
}

#[test]
fn char_threshold_rounds_down_then_adds_one() {
    // shorter title has 10 characters: 30 percent of it is 3, so up to 4 differences
    let e1 = entry("abcdefghij", "");
    let four = entry("xxxxefghij", "");
    let five = entry("xxxxxfghij", "");
    assert!(similar_title(&e1, &four, 30, 0));
    assert!(!similar_title(&e1, &five, 30, 0));
    // at 0 percent a single difference is still allowed
    let one = entry("xbcdefghij", "");
    assert!(similar_title(&e1, &one, 0, 0));
}
