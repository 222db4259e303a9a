//! Fuzzy duplicate detection and text search over directory entries.
//!
//! - `search`: filters entries or categories by a comma-separated search
//!   text, compared in lowercase.
//! - `duplicates`: classifies pairs of entries as likely duplicates, by title
//!   similarity and by closeness that the caller supplies, and scans a
//!   collection for all such pairs.
//! - `similarity`: title similarity by words and by characters.
//! - `distance`: a capped positional distance and the edit distance.
//! - `text`: character vectors, tokens and separators.
//! - `entities`: the entry and category records.

pub mod distance;
pub mod duplicates;
pub mod entities;
pub mod search;
pub mod similarity;
pub mod text;
