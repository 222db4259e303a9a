//! Classifying pairs of entries as likely duplicates, and scanning a
//! collection for all such pairs.
use vstd::prelude::*;

use crate::entities::{copy_text, Entry};
use crate::distance::lemma_mismatches_symmetric;
use crate::similarity::{lemma_words_similar_symmetric, similar_title, titles_similar, words};

verus! {

/// Why two entries are taken for duplicates.
#[derive(Clone, Copy, Debug, PartialEq, Eq, Structural)]
pub enum DuplicateType {
    /// The titles differ in few characters.
    SimilarChars,
    /// The titles differ in few words.
    SimilarWords,
}

/// Percentage of the shorter title's length that may differ in the
/// character test of the first rule.
pub const CHARS_MAX_PERCENT_DIFFERENT: u32 = 30;

/// Number of words that may differ in the word test of the first rule.
pub const CHARS_MAX_WORDS_DIFFERENT: u32 = 0;

/// Percentage of the shorter title's length that may differ in the
/// character test of the second rule.
pub const WORDS_MAX_PERCENT_DIFFERENT: u32 = 0;

/// Number of words that may differ in the word test of the second rule.
pub const WORDS_MAX_WORDS_DIFFERENT: u32 = 2;

/// Distance in meters within which two entries count as close together.
pub const MAX_DUPLICATE_DISTANCE_METERS: u32 = 100;

/// The classification of two entries with titles `a` and `b`, where `close`
/// tells whether they lie within `MAX_DUPLICATE_DISTANCE_METERS` of each
/// other. The first rule that applies decides.
pub open spec fn classify(a: Seq<char>, b: Seq<char>, close: bool) -> Option<DuplicateType> {
    if titles_similar(a, b, CHARS_MAX_PERCENT_DIFFERENT as int, CHARS_MAX_WORDS_DIFFERENT as int)
        && close {
        Some(DuplicateType::SimilarChars)
    } else if titles_similar(
        a,
        b,
        WORDS_MAX_PERCENT_DIFFERENT as int,
        WORDS_MAX_WORDS_DIFFERENT as int,
    ) && close {
        Some(DuplicateType::SimilarWords)
    } else {
        None
    }
}

/// Classifies `e1` and `e2`; `in_close_proximity` tells whether they lie
/// within `MAX_DUPLICATE_DISTANCE_METERS` of each other.
pub fn is_duplicate(e1: &Entry, e2: &Entry, in_close_proximity: bool) -> (r: Option<
    DuplicateType,
>)
    ensures
        r == classify(e1.title@, e2.title@, in_close_proximity),
{
    if similar_title(e1, e2, CHARS_MAX_PERCENT_DIFFERENT, CHARS_MAX_WORDS_DIFFERENT)
        && in_close_proximity {
        Some(DuplicateType::SimilarChars)
    } else if similar_title(e1, e2, WORDS_MAX_PERCENT_DIFFERENT, WORDS_MAX_WORDS_DIFFERENT)
        && in_close_proximity {
        Some(DuplicateType::SimilarWords)
    } else {
        None
    }
}

/// Classifying two entries does not depend on their order, provided that,
/// where their titles have the same number of words, neither title repeats a
/// word.
pub proof fn lemma_is_duplicate_symmetric(e1: Entry, e2: Entry, in_close_proximity: bool)
    requires
        words(e1.title@).len() != words(e2.title@).len() || (words(e1.title@).no_duplicates()
            && words(e2.title@).no_duplicates()),
    ensures
        classify(e1.title@, e2.title@, in_close_proximity) == classify(
            e2.title@,
            e1.title@,
            in_close_proximity,
        ),
{
    let (a, b) = (e1.title@, e2.title@);
    lemma_mismatches_symmetric(a, b);
    lemma_words_similar_symmetric(a, b, CHARS_MAX_WORDS_DIFFERENT as int);
    lemma_words_similar_symmetric(a, b, WORDS_MAX_WORDS_DIFFERENT as int);
}

/// A reported duplicate: the identifiers of the two entries and the reason.
pub type Duplicate = (Option<String>, Option<String>, DuplicateType);

/// Whether the closeness table `close` covers every ordered pair of `n`
/// entries.
pub open spec fn is_square(close: Seq<Vec<bool>>, n: int) -> bool {
    close.len() == n && forall|i: int| 0 <= i < n ==> #[trigger] close[i]@.len() == n
}

/// The duplicates among the pairs (`i`, `j`) with `i < j < end`, in order of `j`.
pub open spec fn row_duplicates(
    es: Seq<Entry>,
    close: Seq<Vec<bool>>,
    i: int,
    end: int,
) -> Seq<Duplicate>
    decreases end - i,
{
    if end <= i + 1 {
        seq![]
    } else {
        let j = end - 1;
        let before = row_duplicates(es, close, i, j);
        match classify(es[i].title@, es[j].title@, close[i]@[j]) {
            Some(t) => before.push((es[i].id, es[j].id, t)),
            None => before,
        }
    }
}

/// The duplicates among the pairs whose first index is below `n`.
pub open spec fn duplicates_upto(es: Seq<Entry>, close: Seq<Vec<bool>>, n: int) -> Seq<
    Duplicate,
>
    decreases n,
{
    if n <= 0 {
        seq![]
    } else {
        duplicates_upto(es, close, n - 1) + row_duplicates(es, close, n - 1, es.len() as int)
    }
}

/// Every pair `i < j` of `es` that `classify` takes for duplicates, with
/// `close[i][j]` as its closeness, ordered by `i` and then by `j`.
pub open spec fn duplicate_pairs(es: Seq<Entry>, close: Seq<Vec<bool>>) -> Seq<Duplicate> {
    duplicates_upto(es, close, es.len() as int)
}

/// All likely duplicates among `entries`. `close[i][j]` tells whether
/// entries `i` and `j` lie within `MAX_DUPLICATE_DISTANCE_METERS` of each
/// other; only the entries with `i < j` are read.
pub fn find_duplicates(entries: &Vec<Entry>, close: &Vec<Vec<bool>>) -> (r: Vec<Duplicate>)
    requires
        is_square(close@, entries@.len() as int),
    ensures
        r@ == duplicate_pairs(entries@, close@),
{
    let n = entries.len();
    let mut duplicates: Vec<Duplicate> = Vec::new();
    let mut i: usize = 0;
    while i < n
        invariant
            n == entries@.len(),
            is_square(close@, n as int),
            i <= n,
            duplicates@ == duplicates_upto(entries@, close@, i as int),
        decreases n - i,
    {
        let ghost before = duplicates@;
        let mut j: usize = i + 1;
        while j < n
            invariant
                n == entries@.len(),
                is_square(close@, n as int),
                i < n,
                i + 1 <= j <= n,
                duplicates@ == before + row_duplicates(entries@, close@, i as int, j as int),
            decreases n - j,
        {
            let near = close[i][j];
            let found = is_duplicate(&entries[i], &entries[j], near);
            let ghost row = row_duplicates(entries@, close@, i as int, j as int);
            match found {
                Some(t) => {
                    duplicates.push((copy_text(&entries[i].id), copy_text(&entries[j].id), t));
                    assert(duplicates@ =~= before + row_duplicates(
                        entries@,
                        close@,
                        i as int,
                        j + 1,
                    ));
                },
                None => {
                    assert(row_duplicates(entries@, close@, i as int, j + 1) == row);
                },
            }
            j = j + 1;
        }
        i = i + 1;
    }
    duplicates
}

} // verus!
