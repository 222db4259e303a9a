//! The records that the search and the duplicate scan work on.
use vstd::prelude::*;

verus! {

/// A directory entry as far as text search and duplicate detection read it.
/// Its coordinates stay with the caller, who decides which entries lie close
/// together.
#[derive(Clone, Debug, PartialEq)]
pub struct Entry {
    pub id: Option<String>,
    pub title: String,
    pub description: String,
}

/// A category, which may have a name.
#[derive(Clone, Debug, PartialEq)]
pub struct Category {
    pub id: Option<String>,
    pub name: Option<String>,
}

impl Entry {
    /// An entry without an identifier.
    pub fn new(title: String, description: String) -> (r: Entry)
        ensures
            r.id is None,
            r.title == title,
            r.description == description,
    {
        Entry { id: None, title, description }
    }
}

/// A copy of an optional text.
pub fn copy_text(o: &Option<String>) -> (r: Option<String>)
    ensures
        r == *o,
{
    match o {
        Some(s) => Some(s.clone()),
        None => None,
    }
}

/// A copy of an entry.
pub fn copy_entry(e: &Entry) -> (r: Entry)
    ensures
        r == *e,
{
    Entry { id: copy_text(&e.id), title: e.title.clone(), description: e.description.clone() }
}

/// A copy of a category.
pub fn copy_category(c: &Category) -> (r: Category)
    ensures
        r == *c,
{
    Category { id: copy_text(&c.id), name: copy_text(&c.name) }
}

} // verus!
