use vstd::prelude::*;

verus! {

/// A book of the Bible, in canonical order (Genesis = 1 ... Revelation = 66).
#[derive(Debug, Clone)]
pub struct Book {
    pub id: i64,
    pub name: String,
    pub testament: String,
    pub chapter_count: i64,
}

/// A single verse: its number within the chapter and its text.
#[derive(Debug, Clone)]
pub struct Verse {
    pub verse: i64,
    pub text: String,
}

/// A Bible translation (e.g. King James Version, World English Bible).
#[derive(Debug, Clone)]
pub struct Translation {
    pub id: i64,
    pub code: String,
    pub name: String,
}

/// A cross-reference from one verse to another passage. `ref_end_verse` is
/// set when the reference is to a verse range rather than a single verse.
#[derive(Debug, Clone, Copy)]
pub struct CrossReference {
    pub verse: i64,
    pub ref_book_id: i64,
    pub ref_chapter: i64,
    pub ref_verse: i64,
    pub ref_end_verse: Option<i64>,
    pub score: i64,
}

} // verus!
