use openfairdb::distance::{
    hamming_distance_small, levenshtein_distance, levenshtein_distance_small, min3,
};

#[test]
fn test_hamming_distance_small() {
    assert_eq!(true, hamming_distance_small("aaaaa", "aabab", 2));
    assert_eq!(false, hamming_distance_small("aaaaa", "abbba", 2));
    assert_eq!(true, hamming_distance_small("aaaaaa", "abaaa", 2));
    assert_eq!(true, hamming_distance_small("aaaaaa", "abaa", 2));
    assert_eq!(false, hamming_distance_small("Hallo! Ein Eintrag", "Hallo! Tschüss", 4));
}

#[test]
fn test_levenshtein_distance() {
    assert_eq!(5, levenshtein_distance("hello", 5, "", 0));
    assert_eq!(3, levenshtein_distance("", 0, "abc", 3));
    assert_eq!(1, levenshtein_distance("hello", 5, "heello", 6));
}

#[test]
fn test_min() {
    assert_eq!(1, min3(1, 2, 3));
    assert_eq!(2, min3(3, 2, 3));
    assert_eq!(2, min3(3, 3, 2));
    assert_eq!(1, min3(1, 1, 1));
}

#[test]
fn hamming_counts_characters_not_bytes() {
    assert!(hamming_distance_small("Tschüss", "Tschuss", 1));
    assert!(!hamming_distance_small("Tschüss", "Tschuss", 0));
}

#[test]
fn hamming_compares_up_to_the_shorter_text() {
    assert!(hamming_distance_small("abc", "abcdefgh", 0));
    assert!(hamming_distance_small("abcdefgh", "abc", 0));
    assert!(!hamming_distance_small("abxdefgh", "abc", 0));
    assert!(hamming_distance_small("abxdefgh", "abc", 1));
}

#[test]
fn hamming_does_not_depend_on_argument_order() {
    for (a, b) in [("ab", "a"), ("abcdef", "xbc"), ("Tschüss", "Tsch"), ("", "abc")] {
        for d in 0..4 {
            assert_eq!(hamming_distance_small(a, b, d), hamming_distance_small(b, a, d));
        }
    }
}

#[test]
fn hamming_of_empty_texts() {
    assert!(hamming_distance_small("", "", 0));
    assert!(hamming_distance_small("", "abc", 0));
    assert!(hamming_distance_small("a", "", 0));
}

#[test]
fn levenshtein_of_prefixes() {
    assert_eq!(3, levenshtein_distance("kitten", 6, "sitting", 7));
    assert_eq!(1, levenshtein_distance("kitten", 3, "sitting", 3));
    assert_eq!(0, levenshtein_distance("abc", 0, "xyz", 0));
    assert_eq!(2, levenshtein_distance("flaw", 4, "lawn", 4));
}

#[test]
fn levenshtein_small_threshold() {
    assert!(levenshtein_distance_small("kitten", "sitting", 3));
    assert!(!levenshtein_distance_small("kitten", "sitting", 2));
    assert!(levenshtein_distance_small("Straße", "Strasse", 2));
    assert!(!levenshtein_distance_small("Straße", "Strasse", 1));
}
