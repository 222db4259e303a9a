//! Filtering entries and categories by a comma-separated search text.
use vstd::prelude::*;

use crate::entities::{copy_category, copy_entry, copy_text, Category, Entry};
use crate::text::{split_tokens, to_chars, tokens, views, Separator};

verus! {

/// The lowercase form of a text, as `str::to_lowercase` gives it.
pub uninterp spec fn lower_of(s: Seq<char>) -> Seq<char>;

/// Relies on `str::to_lowercase`: its result depends on the characters of
/// `s` alone.
#[verifier::external_body]
fn lowercase(s: &str) -> (r: String)
    ensures
        r@ == lower_of(s@),
{
    s.to_lowercase()
}

/// Whether `needle` occurs in `hay` as a contiguous piece.
pub open spec fn occurs_in(needle: Seq<char>, hay: Seq<char>) -> bool {
    exists|i: int|
        0 <= i && i + needle.len() <= hay.len() && #[trigger] hay.subrange(i, i + needle.len())
            == needle
}

/// Whether `needle` occurs in `hay` starting at position `i`.
fn occurs_at(hay: &Vec<char>, needle: &Vec<char>, i: usize) -> (r: bool)
    requires
        i + needle@.len() <= hay@.len(),
    ensures
        r == (hay@.subrange(i as int, i + needle@.len()) == needle@),
{
    let n = hay.len();
    let mut k: usize = 0;
    while k < needle.len()
        invariant
            n == hay@.len(),
            i + needle@.len() <= hay@.len(),
            k <= needle@.len(),
            forall|m: int| 0 <= m < k ==> hay@[i + m] == needle@[m],
        decreases needle.len() - k,
    {
        if hay[i + k] != needle[k] {
            assert(hay@.subrange(i as int, i + needle@.len())[k as int] != needle@[k as int]);
            return false;
        }
        k = k + 1;
    }
    assert(hay@.subrange(i as int, i + needle@.len()) =~= needle@);
    true
}

/// Whether `needle` occurs in `hay`.
fn occurs(hay: &Vec<char>, needle: &Vec<char>) -> (r: bool)
    ensures
        r == occurs_in(needle@, hay@),
{
    if needle.len() > hay.len() {
        return false;
    }
    let last = hay.len() - needle.len();
    let mut i: usize = 0;
    while i < last
        invariant
            last == hay@.len() - needle@.len(),
            i <= last,
            forall|j: int|
                0 <= j < i ==> #[trigger] hay@.subrange(j, j + needle@.len()) != needle@,
        decreases last + 1 - i,
    {
        if occurs_at(hay, needle, i) {
            return true;
        }
        i = i + 1;
    }
    occurs_at(hay, needle, last)
}

/// The search terms of an already lowercased query: its comma-separated
/// pieces, with empty pieces left out.
pub open spec fn query_terms(lowered: Seq<char>) -> Seq<Seq<char>> {
    tokens(lowered, Separator::Comma)
}

/// Whether some term of `terms` occurs in `field`.
pub open spec fn any_term_occurs(terms: Seq<Seq<char>>, field: Seq<char>) -> bool {
    exists|k: int| 0 <= k < terms.len() && occurs_in(#[trigger] terms[k], field)
}

/// The search terms of the already lowercased query `lowered`.
pub fn search_terms(lowered: &str) -> (r: Vec<Vec<char>>)
    ensures
        views(r@) == query_terms(lowered@),
{
    split_tokens(&to_chars(lowered), Separator::Comma)
}

/// Whether some term of `terms` occurs in the already lowercased `field`.
pub fn any_term_occurs_in(terms: &Vec<Vec<char>>, field: &str) -> (r: bool)
    ensures
        r == any_term_occurs(views(terms@), field@),
{
    let hay = to_chars(field);
    let mut k: usize = 0;
    while k < terms.len()
        invariant
            hay@ == field@,
            k <= terms@.len(),
            forall|m: int| 0 <= m < k ==> !occurs_in(#[trigger] views(terms@)[m], field@),
        decreases terms.len() - k,
    {
        if occurs(&hay, &terms[k]) {
            assert(views(terms@)[k as int] == terms@[k as int]@);
            return true;
        }
        k = k + 1;
    }
    false
}

/// An item that a search text can select: it has text fields, compared in
/// lowercase, and an optional identifier.
pub trait Searchable: Sized {
    /// Whether the item is selected by the (non-empty) list of `terms`.
    spec fn selected_by(&self, terms: Seq<Seq<char>>) -> bool;

    /// The item's identifier, if it has one.
    spec fn id_of(&self) -> Option<String>;

    /// Whether the item is selected by `terms`.
    fn matches_terms(&self, terms: &Vec<Vec<char>>) -> (r: bool)
        ensures
            r == self.selected_by(views(terms@)),
    ;

    /// A copy of the item.
    fn copy_item(&self) -> (r: Self)
        ensures
            r == *self,
    ;

    /// A copy of the item's identifier.
    fn item_id(&self) -> (r: Option<String>)
        ensures
            r == self.id_of(),
    ;
}

impl Searchable for Entry {
    /// A term selects an entry when it occurs in the lowercased title or the
    /// lowercased description.
    open spec fn selected_by(&self, terms: Seq<Seq<char>>) -> bool {
        any_term_occurs(terms, lower_of(self.title@)) || any_term_occurs(
            terms,
            lower_of(self.description@),
        )
    }

    open spec fn id_of(&self) -> Option<String> {
        self.id
    }

    fn matches_terms(&self, terms: &Vec<Vec<char>>) -> (r: bool) {
        let title = lowercase(self.title.as_str());
        if any_term_occurs_in(terms, title.as_str()) {
            return true;
        }
        let description = lowercase(self.description.as_str());
        any_term_occurs_in(terms, description.as_str())
    }

    fn copy_item(&self) -> (r: Self) {
        copy_entry(self)
    }

    fn item_id(&self) -> (r: Option<String>) {
        copy_text(&self.id)
    }
}

impl Searchable for Category {
    /// A term selects a category when it occurs in its lowercased name; a
    /// category without a name is never selected.
    open spec fn selected_by(&self, terms: Seq<Seq<char>>) -> bool {
        match self.name {
            Some(n) => any_term_occurs(terms, lower_of(n@)),
            None => false,
        }
    }

    open spec fn id_of(&self) -> Option<String> {
        self.id
    }

    fn matches_terms(&self, terms: &Vec<Vec<char>>) -> (r: bool) {
        match &self.name {
            Some(n) => {
                let name = lowercase(n.as_str());
                any_term_occurs_in(terms, name.as_str())
            },
            None => false,
        }
    }

    fn copy_item(&self) -> (r: Self) {
        copy_category(self)
    }

    fn item_id(&self) -> (r: Option<String>) {
        copy_text(&self.id)
    }
}

/// The items of `items` that the search text `text` selects, in their order:
/// the query is lowercased and split at commas into terms, empty terms are
/// dropped, and an item is kept when some term selects it. A query without
/// any term keeps every item.
pub open spec fn search_filter<T: Searchable>(items: Seq<T>, text: Seq<char>) -> Seq<T> {
    keep_selected(items, query_terms(lower_of(text)))
}

/// The items of `items` that some term of `terms` selects, in their order;
/// every item when there is no term.
pub open spec fn keep_selected<T: Searchable>(items: Seq<T>, terms: Seq<Seq<char>>) -> Seq<T> {
    if terms.len() == 0 {
        items
    } else {
        items.filter(|x: T| x.selected_by(terms))
    }
}

/// The identifiers of the items that have one, in order.
pub open spec fn present_ids<T: Searchable>(items: Seq<T>) -> Seq<String> {
    items.filter_map(|x: T| x.id_of())
}

/// The items of `collection` that the search text `text` selects (see
/// `search_filter`).
pub fn by_text<T: Searchable>(collection: &Vec<T>, text: &str) -> (r: Vec<T>)
    ensures
        r@ == search_filter(collection@, text@),
{
    let lowered = lowercase(text);
    let terms = search_terms(lowered.as_str());
    filter_by_terms(collection, &terms)
}

/// The items of `collection` that some term of the already lowercased
/// `terms` selects, in their order; every item when `terms` is empty.
pub fn filter_by_terms<T: Searchable>(collection: &Vec<T>, terms: &Vec<Vec<char>>) -> (r: Vec<T>)
    ensures
        r@ == keep_selected(collection@, views(terms@)),
{
    let ghost ts = views(terms@);
    let ghost pred = |x: T| x.selected_by(ts);
    let mut r: Vec<T> = Vec::new();
    let mut i: usize = 0;
    while i < collection.len()
        invariant
            i <= collection@.len(),
            ts == views(terms@),
            pred == (|x: T| x.selected_by(ts)),
            ts.len() == 0 ==> r@ == collection@.take(i as int),
            ts.len() > 0 ==> r@ == collection@.take(i as int).filter(pred),
        decreases collection.len() - i,
    {
        let item = &collection[i];
        proof {
            let t = collection@.take(i + 1);
            assert(t.drop_last() =~= collection@.take(i as int));
            assert(t.last() == *item);
            reveal(Seq::filter);
        }
        if terms.len() == 0 || item.matches_terms(terms) {
            r.push(item.copy_item());
        }
        assert(ts.len() == 0 ==> r@ =~= collection@.take(i + 1));
        i = i + 1;
    }
    assert(collection@.take(i as int) =~= collection@);
    r
}

proof fn lemma_filter_twice<A>(s: Seq<A>, p: spec_fn(A) -> bool)
    ensures
        s.filter(p).filter(p) == s.filter(p),
    decreases s.len(),
{
    reveal(Seq::filter);
    if s.len() > 0 {
        lemma_filter_twice(s.drop_last(), p);
        let sub = s.drop_last().filter(p);
        if p(s.last()) {
            assert(sub.push(s.last()).drop_last() =~= sub);
        }
    }
}

/// Filtering the result of a search again with the same search text gives the
/// same items.
pub proof fn lemma_search_filter_idempotent<T: Searchable>(items: Seq<T>, text: Seq<char>)
    ensures
        search_filter(search_filter(items, text), text) == search_filter(items, text),
{
    let terms = query_terms(lower_of(text));
    if terms.len() > 0 {
        lemma_filter_twice(items, |x: T| x.selected_by(terms));
    }
}

/// A search text with no term (only commas, or nothing) keeps every item.
pub proof fn lemma_search_without_terms<T: Searchable>(items: Seq<T>, text: Seq<char>)
    requires
        query_terms(lower_of(text)).len() == 0,
    ensures
        search_filter(items, text) == items,
{
}

/// The identifiers of the items of `collection` that have one, in order.
pub fn ids_of<T: Searchable>(collection: &Vec<T>) -> (r: Vec<String>)
    ensures
        r@ == present_ids(collection@),
{
    let mut r: Vec<String> = Vec::new();
    let mut i: usize = 0;
    while i < collection.len()
        invariant
            i <= collection@.len(),
            r@ == present_ids(collection@.take(i as int)),
        decreases collection.len() - i,
    {
        let item = &collection[i];
        proof {
            let t = collection@.take(i + 1);
            assert(t.drop_last() =~= collection@.take(i as int));
            assert(t.last() == *item);
        }
        match item.item_id() {
            Some(id) => {
                r.push(id);
                assert(r@ =~= present_ids(collection@.take(i + 1)));
            },
            None => {},
        }
        i = i + 1;
    }
    assert(collection@.take(i as int) =~= collection@);
    r
}

/// Filtering by search text, and listing identifiers, over a collection.
pub trait Search: Sized + View {
    /// The view of what `filter_by_search_text(text)` returns.
    spec fn search_view(&self, text: Seq<char>) -> Self::V;

    /// What `map_to_ids` returns.
    spec fn ids_view(&self) -> Seq<String>;

    /// The items that `text` selects, in their order.
    fn filter_by_search_text(&self, text: &str) -> (r: Self)
        ensures
            r@ == self.search_view(text@),
    ;

    /// The identifiers of the items that have one, in order.
    fn map_to_ids(&self) -> (r: Vec<String>)
        ensures
            r@ == self.ids_view(),
    ;
}

impl<T: Searchable> Search for Vec<T> {
    open spec fn search_view(&self, text: Seq<char>) -> Seq<T> {
        search_filter(self@, text)
    }

    open spec fn ids_view(&self) -> Seq<String> {
        present_ids(self@)
    }

    fn filter_by_search_text(&self, text: &str) -> (r: Self) {
        by_text(self, text)
    }

    fn map_to_ids(&self) -> (r: Vec<String>) {
        ids_of(self)
    }
}

} // verus!
