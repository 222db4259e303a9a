use openfairdb::duplicates::{find_duplicates, is_duplicate, DuplicateType};
use openfairdb::entities::Entry;

fn entry(title: &str, description: &str) -> Entry {
    Entry::new(title.to_string(), description.to_string())
}

fn with_id(id: &str, title: &str) -> Entry {
    let mut e = entry(title, "Hallo! Ein Eintrag");
    e.id = Some(id.to_string());
    e
}

fn all_close(n: usize) -> Vec<Vec<bool>> {
    vec![vec![true; n]; n]
}

#[test]
fn test_is_duplicate() {
    // e1 to e4 lie a fraction of a millimeter apart; e5 lies seven degrees
    // of latitude away from them.
    let e1 = entry("Ein Eintrag Blablabla", "Hallo! Ein Eintrag");
    let e2 = entry("Eintrag", "Hallo! Ein Eintrag");
    let e3 = entry("Enn Eintrxg Blablalx", "Hallo! Ein Eintrag");
    let e4 = entry("En Eintrg Blablala", "Hallo! Ein Eintrag");
    let e5 = entry("Ein Eintrag Blabla", "Hallo! Ein Eintrag");

    assert_eq!(Some(DuplicateType::SimilarWords), is_duplicate(&e1, &e2, true)); // titles have a word that is equal
    assert_eq!(Some(DuplicateType::SimilarChars), is_duplicate(&e1, &e3, true)); // titles similar: small hamming distance
    assert_eq!(None, is_duplicate(&e2, &e4, true)); // titles not similar
    assert_eq!(None, is_duplicate(&e4, &e5, false)); // entries not located close together
}

#[test]
fn identical_titles_far_apart_are_no_duplicates() {
    let e1 = entry("Ein Eintrag Blablabla", "");
    let e2 = entry("Ein Eintrag Blablabla", "");
    assert_eq!(None, is_duplicate(&e1, &e2, false));
    assert_eq!(Some(DuplicateType::SimilarChars), is_duplicate(&e1, &e2, true));
}

#[test]
fn find_duplicates_scenario() {
    let entries = vec![
        with_id("1", "Ein Eintrag Blablabla"),
        with_id("2", "Eintrag"),
        with_id("3", "Enn Eintrxg Blablalx"),
    ];
    let found = find_duplicates(&entries, &all_close(3));
    assert_eq!(
        found,
        vec![
            (Some("1".to_string()), Some("2".to_string()), DuplicateType::SimilarWords),
            (Some("1".to_string()), Some("3".to_string()), DuplicateType::SimilarChars),
        ]
    );
}

#[test]
fn find_duplicates_needs_proximity() {
    let entries = vec![with_id("1", "Ein Eintrag Blablabla"), with_id("2", "Ein Eintrag Blablabla")];
    let far = vec![vec![false; 2]; 2];
    assert!(find_duplicates(&entries, &far).is_empty());
}

#[test]
fn find_duplicates_reads_only_pairs_in_order() {
    let entries = vec![with_id("a", "Gleich"), with_id("b", "Gleich"), with_id("c", "Gleich")];
    // only the upper triangle counts: (0, 1) is far, (0, 2) and (1, 2) are close
    let close = vec![
        vec![true, false, true],
        vec![true, true, true],
        vec![true, true, true],
    ];
    let found = find_duplicates(&entries, &close);
    assert_eq!(
        found,
        vec![
            (Some("a".to_string()), Some("c".to_string()), DuplicateType::SimilarChars),
            (Some("b".to_string()), Some("c".to_string()), DuplicateType::SimilarChars),
        ]
    );
}

#[test]
fn find_duplicates_keeps_missing_ids() {
    let entries = vec![entry("Gleich", ""), with_id("x", "Gleich")];
    let found = find_duplicates(&entries, &all_close(2));
    assert_eq!(found, vec![(None, Some("x".to_string()), DuplicateType::SimilarChars)]);
}

#[test]
fn find_duplicates_of_few_entries() {
    assert!(find_duplicates(&Vec::new(), &Vec::new()).is_empty());
    assert!(find_duplicates(&vec![with_id("1", "Eins")], &all_close(1)).is_empty());
}

#[test]
fn classification_is_symmetric_for_titles_of_different_lengths() {
    let a = entry("abc", "");
    let b = entry("a", "");
    assert_eq!(Some(DuplicateType::SimilarChars), is_duplicate(&a, &b, true));
    assert_eq!(Some(DuplicateType::SimilarChars), is_duplicate(&b, &a, true));
}

#[test]
fn classification_is_symmetric_for_equal_lengths() {
    let a = entry("Ein Eintrag", "");
    let b = entry("Eon Eintrog", "");
    assert_eq!(is_duplicate(&a, &b, true), is_duplicate(&b, &a, true));
    assert_eq!(Some(DuplicateType::SimilarChars), is_duplicate(&a, &b, true));
    let c = entry("eins zwei drei vier", "");
    let d = entry("vier drei eins acht", "");
    assert_eq!(is_duplicate(&c, &d, true), is_duplicate(&d, &c, true));
    assert_eq!(Some(DuplicateType::SimilarWords), is_duplicate(&c, &d, true));
}
