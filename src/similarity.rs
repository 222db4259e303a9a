//! Title similarity: by words shared as sets, and by characters.
use vstd::prelude::*;

use crate::distance::{hamming_distance_small, lemma_mismatches_bound, mismatches, shorter_len};
use crate::entities::Entry;
use crate::text::{same_chars, split_tokens, to_chars, tokens, views, Separator};

verus! {

/// The words of `s`: its maximal runs of characters other than white space.
pub open spec fn words(s: Seq<char>) -> Seq<Seq<char>> {
    tokens(s, Separator::Whitespace)
}

/// How many entries of `ws` (counted with repetition) do not occur in `set`.
pub open spec fn count_absent(ws: Seq<Seq<char>>, set: Seq<Seq<char>>) -> nat
    decreases ws.len(),
{
    if ws.len() == 0 {
        0
    } else {
        count_absent(ws.drop_last(), set) + if set.contains(ws.last()) { 0nat } else { 1nat }
    }
}

/// Whether two texts agree in all but at most `k` words. The words of the text
/// with fewer (or as many) words form a set; each word of the other text that
/// is not in that set counts once per occurrence. Two texts of exactly one word
/// each never agree in this sense.
pub open spec fn words_similar(a: Seq<char>, b: Seq<char>, k: int) -> bool {
    let wa = words(a);
    let wb = words(b);
    if wa.len() == 1 && wb.len() == 1 {
        false
    } else if wa.len() <= wb.len() {
        count_absent(wb, wa) <= k
    } else {
        count_absent(wa, wb) <= k
    }
}

/// For words without repetition, the words absent from `set` are those not
/// shared with it.
proof fn lemma_count_absent_shared(ws: Seq<Seq<char>>, set: Seq<Seq<char>>)
    requires
        ws.no_duplicates(),
    ensures
        count_absent(ws, set) + ws.to_set().intersect(set.to_set()).len() == ws.len(),
    decreases ws.len(),
{
    broadcast use vstd::set::group_set_axioms, vstd::seq_lib::seq_to_set_is_finite;

    if ws.len() == 0 {
        assert(ws.to_set().intersect(set.to_set()) =~= Set::empty());
    } else {
        let rest = ws.drop_last();
        let x = ws.last();
        assert(rest.no_duplicates());
        lemma_count_absent_shared(rest, set);
        assert(ws =~= rest.push(x));
        rest.lemma_push_to_set_commute(x);
        assert(!rest.contains(x)) by {
            if rest.contains(x) {
                let j = choose|j: int| 0 <= j < rest.len() && rest[j] == x;
                assert(ws[j] == ws[ws.len() - 1]);
            }
        }
        let before = rest.to_set().intersect(set.to_set());
        let after = ws.to_set().intersect(set.to_set());
        if set.contains(x) {
            assert(after =~= before.insert(x));
        } else {
            assert(after =~= before);
        }
    }
}

/// Comparing two texts with the same number of words, none repeated, gives
/// the same count whichever text forms the set.
proof fn lemma_count_absent_swap(wa: Seq<Seq<char>>, wb: Seq<Seq<char>>)
    requires
        wa.len() == wb.len(),
        wa.no_duplicates(),
        wb.no_duplicates(),
    ensures
        count_absent(wa, wb) == count_absent(wb, wa),
{
    lemma_count_absent_shared(wa, wb);
    lemma_count_absent_shared(wb, wa);
    assert(wa.to_set().intersect(wb.to_set()) =~= wb.to_set().intersect(wa.to_set()));
}

/// The word test gives the same answer in both directions when the two texts
/// differ in their number of words, or when neither text repeats a word.
pub proof fn lemma_words_similar_symmetric(a: Seq<char>, b: Seq<char>, k: int)
    requires
        words(a).len() != words(b).len() || (words(a).no_duplicates()
            && words(b).no_duplicates()),
    ensures
        words_similar(a, b, k) == words_similar(b, a, k),
{
    if words(a).len() == words(b).len() {
        lemma_count_absent_swap(words(a), words(b));
    }
}

/// Whether `w` is among `ws`.
fn contains_word(ws: &Vec<Vec<char>>, w: &Vec<char>) -> (r: bool)
    ensures
        r == views(ws@).contains(w@),
{
    let mut i: usize = 0;
    while i < ws.len()
        invariant
            i <= ws@.len(),
            forall|j: int| 0 <= j < i ==> ws@[j]@ != w@,
        decreases ws.len() - i,
    {
        if same_chars(&ws[i], w) {
            assert(views(ws@)[i as int] == w@);
            return true;
        }
        i = i + 1;
    }
    assert forall|j: int| 0 <= j < views(ws@).len() implies views(ws@)[j] != w@ by {
        assert(views(ws@)[j] == ws@[j]@);
    }
    false
}

/// How many of the words `ws` (with repetition) are not among `set`.
fn count_absent_words(ws: &Vec<Vec<char>>, set: &Vec<Vec<char>>) -> (r: usize)
    ensures
        r == count_absent(views(ws@), views(set@)),
{
    let mut n: usize = 0;
    let mut i: usize = 0;
    while i < ws.len()
        invariant
            i <= ws@.len(),
            n <= i,
            n == count_absent(views(ws@).take(i as int), views(set@)),
        decreases ws.len() - i,
    {
        let absent = !contains_word(set, &ws[i]);
        proof {
            let t = views(ws@).take(i + 1);
            assert(t.drop_last() =~= views(ws@).take(i as int));
            assert(t.last() == ws@[i as int]@);
        }
        if absent {
            n = n + 1;
        }
        i = i + 1;
    }
    assert(views(ws@).take(i as int) =~= views(ws@));
    n
}

/// Whether `str1` and `str2` agree in all but at most `k` words (see
/// `words_similar`); always false when both are a single word.
pub fn words_equal_except_k_words(str1: &str, str2: &str, k: u32) -> (r: bool)
    ensures
        r == words_similar(str1@, str2@, k as int),
        words(str1@).len() == 1 && words(str2@).len() == 1 ==> !r,
{
    let w1 = split_tokens(&to_chars(str1), Separator::Whitespace);
    let w2 = split_tokens(&to_chars(str2), Separator::Whitespace);
    let len1 = w1.len();
    let len2 = w2.len();
    if len1 == 1 && len2 == 1 {
        false
    } else if len1 <= len2 {
        count_absent_words(&w2, &w1) as u64 <= k as u64
    } else {
        count_absent_words(&w1, &w2) as u64 <= k as u64
    }
}

/// The largest positional distance at which two titles of `len1` and `len2`
/// characters still count as similar: `max_percent_different` percent of the
/// shorter length, rounded down, plus one.
pub open spec fn char_threshold(len1: int, len2: int, max_percent_different: int) -> int {
    let shorter = if len1 <= len2 { len1 } else { len2 };
    shorter * max_percent_different / 100 + 1
}

/// Whether two titles are similar: by characters, within `char_threshold`,
/// or by words, with at most `max_words_different` differing words.
pub open spec fn titles_similar(
    a: Seq<char>,
    b: Seq<char>,
    max_percent_different: int,
    max_words_different: int,
) -> bool {
    mismatches(a, b) <= char_threshold(a.len() as int, b.len() as int, max_percent_different)
        || words_similar(a, b, max_words_different)
}

/// Whether the titles of `e1` and `e2` are similar (see `titles_similar`);
/// `max_percent_different` is a percentage.
pub fn similar_title(
    e1: &Entry,
    e2: &Entry,
    max_percent_different: u32,
    max_words_different: u32,
) -> (r: bool)
    ensures
        r == titles_similar(
            e1.title@,
            e2.title@,
            max_percent_different as int,
            max_words_different as int,
        ),
{
    let t1 = e1.title.as_str();
    let t2 = e2.title.as_str();
    let len1 = t1.unicode_len();
    let len2 = t2.unicode_len();
    let shorter: usize = if len1 <= len2 { len1 } else { len2 };
    assert((shorter as u128) * (max_percent_different as u128) <= 0xffff_ffff_ffff_ffff_ffff_ffff)
        by (nonlinear_arith)
        requires
            shorter <= 0xffff_ffff_ffff_ffff,
            max_percent_different <= 0xffff_ffff,
    ;
    let threshold: u128 = (shorter as u128) * (max_percent_different as u128) / 100 + 1;
    let by_chars = if threshold > usize::MAX as u128 {
        proof {
            lemma_mismatches_bound(t1@, t2@, shorter_len(t1@, t2@));
        }
        true
    } else {
        hamming_distance_small(t1, t2, threshold as usize)
    };
    by_chars || words_equal_except_k_words(t1, t2, max_words_different)
}

} // verus!
