//! Character distances between two strings: a capped positional (Hamming
//! style) distance and the full edit (Levenshtein) distance.
use vstd::prelude::*;

use crate::text::to_chars;

verus! {

/// Whether `a` and `b` both have a character at position `i`, and these
/// characters differ.
pub open spec fn differs_at(a: Seq<char>, b: Seq<char>, i: int) -> bool {
    i < b.len() && a[i] != b[i]
}

/// Number of differing positions among the first `n` positions.
pub open spec fn mismatches_upto(a: Seq<char>, b: Seq<char>, n: int) -> nat
    decreases n,
{
    if n <= 0 {
        0
    } else {
        mismatches_upto(a, b, n - 1) + if differs_at(a, b, n - 1) { 1nat } else { 0nat }
    }
}

/// The length of the shorter of `a` and `b`.
pub open spec fn shorter_len(a: Seq<char>, b: Seq<char>) -> int {
    if a.len() <= b.len() {
        a.len() as int
    } else {
        b.len() as int
    }
}

/// The positional distance between `a` and `b`: the positions up to the
/// length of the shorter text where the two differ. Characters of the longer
/// text beyond that length are not counted.
pub open spec fn mismatches(a: Seq<char>, b: Seq<char>) -> nat {
    mismatches_upto(a, b, shorter_len(a, b))
}

proof fn lemma_mismatches_monotonic(a: Seq<char>, b: Seq<char>, m: int, n: int)
    requires
        m <= n,
    ensures
        mismatches_upto(a, b, m) <= mismatches_upto(a, b, n),
    decreases n - m,
{
    if m < n {
        lemma_mismatches_monotonic(a, b, m, n - 1);
    }
}

/// The positional distance never exceeds the number of positions compared.
pub proof fn lemma_mismatches_bound(a: Seq<char>, b: Seq<char>, n: int)
    requires
        0 <= n,
    ensures
        mismatches_upto(a, b, n) <= n,
    decreases n,
{
    if n > 0 {
        lemma_mismatches_bound(a, b, n - 1);
    }
}

proof fn lemma_mismatches_upto_symmetric(a: Seq<char>, b: Seq<char>, n: int)
    requires
        n <= shorter_len(a, b),
    ensures
        mismatches_upto(a, b, n) == mismatches_upto(b, a, n),
    decreases n,
{
    if n > 0 {
        lemma_mismatches_upto_symmetric(a, b, n - 1);
    }
}

/// The positional distance does not depend on the order of the two texts.
pub proof fn lemma_mismatches_symmetric(a: Seq<char>, b: Seq<char>)
    ensures
        mismatches(a, b) == mismatches(b, a),
{
    lemma_mismatches_upto_symmetric(a, b, shorter_len(a, b));
}

/// Whether the positional distance between `str1` and `str2` (see
/// `mismatches`) is at most `max_dist`. The scan stops as soon as more than
/// `max_dist` differences have been seen.
pub fn hamming_distance_small(str1: &str, str2: &str, max_dist: usize) -> (r: bool)
    ensures
        r == (mismatches(str1@, str2@) <= max_dist),
{
    let a = to_chars(str1);
    let b = to_chars(str2);
    let n: usize = if a.len() <= b.len() { a.len() } else { b.len() };
    let mut dist: usize = 0;
    let mut i: usize = 0;
    while i < n
        invariant
            a@ == str1@,
            b@ == str2@,
            n == shorter_len(a@, b@),
            i <= n,
            dist == mismatches_upto(a@, b@, i as int),
            dist <= max_dist,
            dist <= i,
        decreases n - i,
    {
        if a[i] != b[i] {
            dist = dist + 1;
            if dist > max_dist {
                proof {
                    lemma_mismatches_monotonic(a@, b@, i + 1, n as int);
                }
                return false;
            }
        }
        i = i + 1;
    }
    true
}

/// The least of three numbers.
pub open spec fn min_of3(s: int, t: int, u: int) -> int {
    if s <= t && s <= u {
        s
    } else if t <= u {
        t
    } else {
        u
    }
}

/// The least of three numbers.
pub fn min3(s: usize, t: usize, u: usize) -> (r: usize)
    ensures
        r == min_of3(s as int, t as int, u as int),
{
    if s <= t {
        if s <= u { s } else { u }
    } else {
        if t <= u { t } else { u }
    }
}

/// The edit distance between `s` and `t`: the fewest insertions, deletions
/// and substitutions of one character that turn one into the other.
pub open spec fn edit_distance(s: Seq<char>, t: Seq<char>) -> nat
    decreases s.len() + t.len(),
{
    if s.len() == 0 {
        t.len()
    } else if t.len() == 0 {
        s.len()
    } else {
        let cost: int = if s.last() == t.last() { 0 } else { 1 };
        min_of3(
            edit_distance(s.drop_last(), t) as int + 1,
            edit_distance(s, t.drop_last()) as int + 1,
            edit_distance(s.drop_last(), t.drop_last()) as int + cost,
        ) as nat
    }
}

proof fn lemma_edit_distance_bound(s: Seq<char>, t: Seq<char>)
    ensures
        edit_distance(s, t) <= if s.len() >= t.len() { s.len() } else { t.len() },
    decreases s.len() + t.len(),
{
    if s.len() > 0 && t.len() > 0 {
        lemma_edit_distance_bound(s.drop_last(), t.drop_last());
    }
}

/// The edit distance between the first `len_s` characters of `s` and the
/// first `len_t` characters of `t`, computed row by row.
pub fn levenshtein_distance(s: &str, len_s: usize, t: &str, len_t: usize) -> (r: usize)
    requires
        len_s <= s@.len(),
        len_t <= t@.len(),
        len_s < usize::MAX,
        len_t < usize::MAX,
    ensures
        r == edit_distance(s@.take(len_s as int), t@.take(len_t as int)),
{
    let a = to_chars(s);
    let b = to_chars(t);
    let ghost sa = a@.take(len_s as int);
    let ghost tb = b@.take(len_t as int);
    // Row 0: the distance from the empty prefix of `s` to each prefix of `t`.
    let mut prev: Vec<usize> = Vec::new();
    let mut j: usize = 0;
    while j <= len_t
        invariant
            j <= len_t + 1,
            len_t < usize::MAX,
            prev@.len() == j,
            tb == b@.take(len_t as int),
            len_t <= b@.len(),
            forall|k: int| 0 <= k < j ==> prev@[k] == edit_distance(sa.take(0), tb.take(k)),
        decreases len_t + 1 - j,
    {
        assert(sa.take(0).len() == 0);
        assert(tb.take(j as int).len() == j);
        prev.push(j);
        j = j + 1;
    }
    let mut i: usize = 1;
    while i <= len_s
        invariant
            1 <= i <= len_s + 1,
            len_s < usize::MAX,
            len_t < usize::MAX,
            a@ == s@,
            b@ == t@,
            sa == a@.take(len_s as int),
            tb == b@.take(len_t as int),
            len_s <= a@.len(),
            len_t <= b@.len(),
            prev@.len() == len_t + 1,
            forall|k: int|
                0 <= k <= len_t ==> prev@[k] == edit_distance(sa.take(i - 1), tb.take(k)),
        decreases len_s + 1 - i,
    {
        let mut cur: Vec<usize> = Vec::new();
        assert(tb.take(0).len() == 0);
        cur.push(i);
        let mut j: usize = 1;
        while j <= len_t
            invariant
                1 <= i <= len_s,
                1 <= j <= len_t + 1,
                len_s < usize::MAX,
                len_t < usize::MAX,
                a@ == s@,
                b@ == t@,
                sa == a@.take(len_s as int),
                tb == b@.take(len_t as int),
                len_s <= a@.len(),
                len_t <= b@.len(),
                prev@.len() == len_t + 1,
                forall|k: int|
                    0 <= k <= len_t ==> prev@[k] == edit_distance(sa.take(i - 1), tb.take(k)),
                cur@.len() == j,
                forall|k: int| 0 <= k < j ==> cur@[k] == edit_distance(sa.take(i as int), tb.take(k)),
            decreases len_t + 1 - j,
        {
            let cost: usize = if a[i - 1] == b[j - 1] { 0 } else { 1 };
            proof {
                let si = sa.take(i as int);
                let tj = tb.take(j as int);
                assert(si.drop_last() =~= sa.take(i - 1));
                assert(tj.drop_last() =~= tb.take(j - 1));
                assert(si.last() == a@[i - 1]);
                assert(tj.last() == b@[j - 1]);
                lemma_edit_distance_bound(sa.take(i - 1), tb.take(j as int));
                lemma_edit_distance_bound(si, tb.take(j - 1));
                lemma_edit_distance_bound(sa.take(i - 1), tb.take(j - 1));
            }
            let d = min3(prev[j] + 1, cur[j - 1] + 1, prev[j - 1] + cost);
            cur.push(d);
            j = j + 1;
        }
        prev = cur;
        i = i + 1;
    }
    proof {
        assert(sa.take(len_s as int) =~= sa);
        assert(tb.take(len_t as int) =~= tb);
    }
    prev[len_t]
}

/// Whether the edit distance between `s` and `t` is at most `max_dist`.
pub fn levenshtein_distance_small(s: &str, t: &str, max_dist: usize) -> (r: bool)
    requires
        s@.len() < usize::MAX,
        t@.len() < usize::MAX,
    ensures
        r == (edit_distance(s@, t@) <= max_dist),
{
    let len_s = s.unicode_len();
    let len_t = t.unicode_len();
    proof {
        assert(s@.take(len_s as int) =~= s@);
        assert(t@.take(len_t as int) =~= t@);
    }
    levenshtein_distance(s, len_s, t, len_t) <= max_dist
}

} // verus!
