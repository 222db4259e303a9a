//! Character-level helpers: character vectors, tokens and substrings.
use vstd::prelude::*;

verus! {

/// The characters of `s`, in order.
pub fn to_chars(s: &str) -> (r: Vec<char>)
    ensures
        r@ == s@,
{
    let mut r: Vec<char> = Vec::new();
    for c in it: s.chars()
        invariant
            it.seq() == s@,
            r@ == it.seq().take(it.index() as int),
    {
        r.push(c);
    }
    r
}

/// Whether two character vectors hold the same characters.
pub fn same_chars(a: &Vec<char>, b: &Vec<char>) -> (r: bool)
    ensures
        r == (a@ == b@),
{
    if a.len() != b.len() {
        return false;
    }
    let mut i: usize = 0;
    while i < a.len()
        invariant
            a@.len() == b@.len(),
            i <= a@.len(),
            a@.take(i as int) == b@.take(i as int),
        decreases a.len() - i,
    {
        if a[i] != b[i] {
            assert(a@[i as int] != b@[i as int]);
            return false;
        }
        assert(a@.take(i + 1) =~= a@.take(i as int).push(a@[i as int]));
        assert(b@.take(i + 1) =~= b@.take(i as int).push(b@[i as int]));
        i = i + 1;
    }
    assert(a@ =~= a@.take(i as int));
    assert(b@ =~= b@.take(i as int));
    true
}

/// Whether `c` has Unicode's White_Space property.
pub open spec fn is_white_space(c: char) -> bool {
    ('\u{9}' <= c && c <= '\u{d}') || c == ' ' || c == '\u{85}' || c == '\u{a0}'
        || c == '\u{1680}' || ('\u{2000}' <= c && c <= '\u{200a}') || c == '\u{2028}'
        || c == '\u{2029}' || c == '\u{202f}' || c == '\u{205f}' || c == '\u{3000}'
}

/// What separates the tokens of a text.
#[derive(Clone, Copy, Debug, PartialEq, Eq)]
pub enum Separator {
    /// Any run of white space, as between the words of a title.
    Whitespace,
    /// A comma, as between the terms of a search query.
    Comma,
}

/// Whether `c` separates tokens under `sep`.
pub open spec fn separates(sep: Separator, c: char) -> bool {
    match sep {
        Separator::Whitespace => is_white_space(c),
        Separator::Comma => c == ',',
    }
}

/// Whether `c` separates tokens under `sep`.
pub fn is_separator(sep: Separator, c: char) -> (r: bool)
    ensures
        r == separates(sep, c),
{
    match sep {
        Separator::Whitespace => {
            ('\u{9}' <= c && c <= '\u{d}') || c == ' ' || c == '\u{85}' || c == '\u{a0}'
                || c == '\u{1680}' || ('\u{2000}' <= c && c <= '\u{200a}') || c
                == '\u{2028}' || c == '\u{2029}' || c == '\u{202f}' || c == '\u{205f}' || c
                == '\u{3000}'
        },
        Separator::Comma => c == ',',
    }
}

/// Length of the run of non-separating characters at the end of `s`.
pub open spec fn trailing_run(s: Seq<char>, sep: Separator) -> nat
    decreases s.len(),
{
    if s.len() == 0 || separates(sep, s.last()) {
        0
    } else {
        1 + trailing_run(s.drop_last(), sep)
    }
}

proof fn lemma_trailing_run_bound(s: Seq<char>, sep: Separator)
    ensures
        trailing_run(s, sep) <= s.len(),
    decreases s.len(),
{
    if s.len() > 0 {
        lemma_trailing_run_bound(s.drop_last(), sep);
    }
}

/// The tokens of `s`: its maximal runs of non-separating characters, in
/// order. Empty tokens never occur.
pub open spec fn tokens(s: Seq<char>, sep: Separator) -> Seq<Seq<char>>
    decreases s.len(),
    via tokens_decreases
{
    if s.len() == 0 {
        seq![]
    } else if separates(sep, s.last()) {
        tokens(s.drop_last(), sep)
    } else {
        let n = trailing_run(s, sep);
        tokens(s.take(s.len() - n), sep).push(s.subrange(s.len() - n, s.len() as int))
    }
}

#[via_fn]
proof fn tokens_decreases(s: Seq<char>, sep: Separator) {
    lemma_trailing_run_bound(s, sep);
}

/// The views of a sequence of character vectors.
pub open spec fn views(v: Seq<Vec<char>>) -> Seq<Seq<char>> {
    v.map_values(|w: Vec<char>| w@)
}

/// Splits `s` into its tokens under `sep`.
pub fn split_tokens(s: &Vec<char>, sep: Separator) -> (r: Vec<Vec<char>>)
    ensures
        views(r@) == tokens(s@, sep),
{
    let mut r: Vec<Vec<char>> = Vec::new();
    let mut cur: Vec<char> = Vec::new();
    let mut i: usize = 0;
    while i < s.len()
        invariant
            i <= s@.len(),
            cur@.len() <= i,
            cur@ == s@.subrange(i - cur@.len(), i as int),
            trailing_run(s@.take(i as int), sep) == cur@.len(),
            views(r@) == tokens(s@.take(i - cur@.len()), sep),
        decreases s.len() - i,
    {
        let c = s[i];
        let ghost p = s@.take(i as int);
        let ghost q = s@.take(i + 1);
        assert(q.drop_last() =~= p);
        assert(q.last() == c);
        if is_separator(sep, c) {
            assert(tokens(q, sep) == tokens(p, sep));
            if cur.len() > 0 {
                proof {
                    assert(!separates(sep, p.last()));
                    assert(p.take(p.len() - cur@.len()) =~= s@.take(i - cur@.len()));
                    assert(p.subrange(p.len() - cur@.len(), p.len() as int) =~= cur@);
                    assert(views(r@.push(cur)) =~= views(r@).push(cur@));
                    assert(tokens(p, sep) == tokens(
                        p.take(p.len() - cur@.len()),
                        sep,
                    ).push(p.subrange(p.len() - cur@.len(), p.len() as int)));
                }
                r.push(cur);
                cur = Vec::new();
            }
        } else {
            cur.push(c);
            assert(cur@ =~= s@.subrange(i + 1 - cur@.len(), i + 1));
        }
        i = i + 1;
    }
    proof {
        assert(s@.take(s@.len() as int) =~= s@);
    }
    if cur.len() > 0 {
        proof {
            let n = s@.len();
            assert(s@.take(n - cur@.len()) =~= s@.take(n - cur@.len()));
            assert(views(r@.push(cur)) =~= views(r@).push(cur@));
        }
        r.push(cur);
    }
    r
}

} // verus!
