use vstd::prelude::*;

verus! {

/// The query of the chapter-grid request: which chapter to mark active.
#[derive(Debug, Clone, Copy)]
pub struct ChaptersQuery {
    pub active: Option<i64>,
}

/// The query of the reading-pane request: which translation to read.
#[derive(Debug, Clone)]
pub struct ReadQuery {
    pub translation: Option<String>,
}

/// The query of the cross-reference text request: which translation, and
/// where the cited range ends.
#[derive(Debug, Clone)]
pub struct XrefTextQuery {
    pub translation: Option<String>,
    pub end_verse: Option<i64>,
}

} // verus!
