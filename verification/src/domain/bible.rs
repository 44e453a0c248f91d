use vstd::prelude::*;

use crate::db::models::Book;

verus! {

/// A reference to one chapter, identified by its book and chapter number.
#[derive(Debug, Clone, Copy, PartialEq, Eq, Structural)]
pub struct ChapterRef {
    pub book_id: i64,
    pub chapter: i64,
}

/// Some book has an id below `bound`.
pub open spec fn has_book_below(books: Seq<Book>, bound: i64) -> bool {
    exists|j: int| 0 <= j < books.len() && #[trigger] books[j].id < bound
}

/// Some book has an id above `bound`.
pub open spec fn has_book_above(books: Seq<Book>, bound: i64) -> bool {
    exists|j: int| 0 <= j < books.len() && #[trigger] books[j].id > bound
}

/// Some book has exactly the id `id`.
pub open spec fn has_book(books: Seq<Book>, id: i64) -> bool {
    exists|j: int| 0 <= j < books.len() && #[trigger] books[j].id == id
}

/// `books[i]` is the book with the largest id below `bound`, and the last
/// one in the list among those sharing that largest id.
pub open spec fn is_last_max_below(books: Seq<Book>, bound: i64, i: int) -> bool {
    &&& 0 <= i < books.len()
    &&& books[i].id < bound
    &&& forall|j: int| 0 <= j < books.len() && #[trigger] books[j].id < bound ==> books[j].id <= books[i].id
    &&& forall|j: int| i < j < books.len() && #[trigger] books[j].id < bound ==> books[j].id < books[i].id
}

/// `books[i]` is the book with the smallest id above `bound`, and the first
/// one in the list among those sharing that smallest id.
pub open spec fn is_first_min_above(books: Seq<Book>, bound: i64, i: int) -> bool {
    &&& 0 <= i < books.len()
    &&& books[i].id > bound
    &&& forall|j: int| 0 <= j < books.len() && #[trigger] books[j].id > bound ==> books[i].id <= books[j].id
    &&& forall|j: int| 0 <= j < i && #[trigger] books[j].id > bound ==> books[i].id < books[j].id
}

/// `books[i]` is the first book in the list with id `id`.
pub open spec fn is_first_with_id(books: Seq<Book>, id: i64, i: int) -> bool {
    &&& 0 <= i < books.len()
    &&& books[i].id == id
    &&& forall|j: int| 0 <= j < i ==> #[trigger] books[j].id != id
}

/// The index of the first book in the list with id `id` (meaningful when
/// `has_book(books, id)`).
pub open spec fn first_book_index(books: Seq<Book>, id: i64) -> int {
    choose|i: int| is_first_with_id(books, id, i)
}

/// The chapter before `at`: the previous chapter of the same book, or, from
/// a chapter numbered 1 or lower, the last chapter of the book with the next
/// smaller id; none when no book has a smaller id.
pub open spec fn spec_previous_chapter(books: Seq<Book>, at: ChapterRef) -> Option<ChapterRef> {
    if at.chapter > 1 {
        Some(ChapterRef { book_id: at.book_id, chapter: (at.chapter - 1) as i64 })
    } else if has_book_below(books, at.book_id) {
        let i = choose|i: int| is_last_max_below(books, at.book_id, i);
        Some(ChapterRef { book_id: books[i].id, chapter: books[i].chapter_count })
    } else {
        None
    }
}

/// The chapter after `at`: none when no book has `at`'s id; the next chapter
/// of that book (its first entry in the list) while `at` is before its last
/// chapter; otherwise chapter 1 of the book with the next larger id, or none
/// when no book has a larger id.
pub open spec fn spec_next_chapter(books: Seq<Book>, at: ChapterRef) -> Option<ChapterRef> {
    if has_book(books, at.book_id) {
        let i = first_book_index(books, at.book_id);
        if at.chapter < books[i].chapter_count {
            Some(ChapterRef { book_id: at.book_id, chapter: (at.chapter + 1) as i64 })
        } else if has_book_above(books, at.book_id) {
            let k = choose|k: int| is_first_min_above(books, at.book_id, k);
            Some(ChapterRef { book_id: books[k].id, chapter: 1 })
        } else {
            None
        }
    } else {
        None
    }
}

proof fn lemma_last_max_below_unique(books: Seq<Book>, bound: i64, i: int, k: int)
    requires
        is_last_max_below(books, bound, i),
        is_last_max_below(books, bound, k),
    ensures
        i == k,
{
    if i < k {
        assert(books[k].id < books[i].id);
        assert(books[i].id <= books[k].id);
    } else if k < i {
        assert(books[i].id < books[k].id);
        assert(books[k].id <= books[i].id);
    }
}

proof fn lemma_first_min_above_unique(books: Seq<Book>, bound: i64, i: int, k: int)
    requires
        is_first_min_above(books, bound, i),
        is_first_min_above(books, bound, k),
    ensures
        i == k,
{
    if i < k {
        assert(books[k].id < books[i].id);
        assert(books[k].id <= books[i].id);
        assert(books[i].id <= books[k].id);
    } else if k < i {
        assert(books[i].id < books[k].id);
        assert(books[i].id <= books[k].id);
        assert(books[k].id <= books[i].id);
    }
}

proof fn lemma_first_with_id_unique(books: Seq<Book>, id: i64, i: int, k: int)
    requires
        is_first_with_id(books, id, i),
        is_first_with_id(books, id, k),
    ensures
        i == k,
{
    if i < k {
        assert(books[i].id != id);
    } else if k < i {
        assert(books[k].id != id);
    }
}

proof fn lemma_first_with_id_exists(books: Seq<Book>, id: i64, w: int)
    requires
        0 <= w < books.len(),
        books[w].id == id,
    ensures
        exists|i: int| is_first_with_id(books, id, i),
    decreases w,
{
    if exists|j: int| 0 <= j < w && #[trigger] books[j].id == id {
        let j = choose|j: int| 0 <= j < w && #[trigger] books[j].id == id;
        lemma_first_with_id_exists(books, id, j);
    } else {
        assert(is_first_with_id(books, id, w));
    }
}

/// The index that a scan of the first `n` books keeps as the last book with
/// the largest id below `bound`.
proof fn lemma_last_max_below_in_prefix(books: Seq<Book>, bound: i64, n: int) -> (r: Option<int>)
    requires
        0 <= n <= books.len(),
    ensures
        r is None ==> forall|t: int| 0 <= t < n ==> #[trigger] books[t].id >= bound,
        r matches Some(b) ==> {
            &&& 0 <= b < n
            &&& books[b].id < bound
            &&& forall|t: int| 0 <= t < n && #[trigger] books[t].id < bound ==> books[t].id <= books[b].id
            &&& forall|t: int| b < t < n && #[trigger] books[t].id < bound ==> books[t].id < books[b].id
        },
    decreases n,
{
    if n == 0 {
        None
    } else {
        let prev = lemma_last_max_below_in_prefix(books, bound, n - 1);
        let j = n - 1;
        if books[j].id < bound {
            match prev {
                None => Some(j),
                Some(b) => if books[j].id >= books[b].id {
                    Some(j)
                } else {
                    Some(b)
                },
            }
        } else {
            prev
        }
    }
}

proof fn lemma_last_max_below_exists(books: Seq<Book>, bound: i64)
    requires
        has_book_below(books, bound),
    ensures
        exists|i: int| is_last_max_below(books, bound, i),
{
    let r = lemma_last_max_below_in_prefix(books, bound, books.len() as int);
    let w = choose|w: int| 0 <= w < books.len() && #[trigger] books[w].id < bound;
    assert(books[w].id < bound);
    let b = r.unwrap();
    assert(is_last_max_below(books, bound, b));
}

/// The index that a scan of the first `n` books keeps as the first book with
/// the smallest id above `bound`.
proof fn lemma_first_min_above_in_prefix(books: Seq<Book>, bound: i64, n: int) -> (r: Option<int>)
    requires
        0 <= n <= books.len(),
    ensures
        r is None ==> forall|t: int| 0 <= t < n ==> #[trigger] books[t].id <= bound,
        r matches Some(b) ==> {
            &&& 0 <= b < n
            &&& books[b].id > bound
            &&& forall|t: int| 0 <= t < n && #[trigger] books[t].id > bound ==> books[b].id <= books[t].id
            &&& forall|t: int| 0 <= t < b && #[trigger] books[t].id > bound ==> books[b].id < books[t].id
        },
    decreases n,
{
    if n == 0 {
        None
    } else {
        let prev = lemma_first_min_above_in_prefix(books, bound, n - 1);
        let j = n - 1;
        if books[j].id > bound {
            match prev {
                None => Some(j),
                Some(b) => if books[j].id < books[b].id {
                    Some(j)
                } else {
                    Some(b)
                },
            }
        } else {
            prev
        }
    }
}

proof fn lemma_first_min_above_exists(books: Seq<Book>, bound: i64)
    requires
        has_book_above(books, bound),
    ensures
        exists|i: int| is_first_min_above(books, bound, i),
{
    let r = lemma_first_min_above_in_prefix(books, bound, books.len() as int);
    let w = choose|w: int| 0 <= w < books.len() && #[trigger] books[w].id > bound;
    assert(books[w].id > bound);
    let b = r.unwrap();
    assert(is_first_min_above(books, bound, b));
}

/// When some book has id `id` (for instance book `w`), the first book with
/// that id is at `first_book_index(books, id)`.
pub proof fn lemma_first_book_index_is_first(books: Seq<Book>, id: i64, w: int)
    requires
        0 <= w < books.len(),
        books[w].id == id,
    ensures
        has_book(books, id),
        0 <= first_book_index(books, id) < books.len(),
        books[first_book_index(books, id)].id == id,
        forall|j: int| 0 <= j < first_book_index(books, id) ==> #[trigger] books[j].id != id,
{
    lemma_first_with_id_exists(books, id, w);
}

/// The position of the first book with id `id`, if any.
pub fn find_book(books: &[Book], id: i64) -> (r: Option<usize>)
    ensures
        match r {
            Some(i) => {
                &&& has_book(books@, id)
                &&& i == first_book_index(books@, id)
                &&& is_first_with_id(books@, id, i as int)
            },
            None => !has_book(books@, id),
        },
        r matches Some(i) ==> i < books@.len() && books@[i as int].id == id && forall|j: int|
            0 <= j < i ==> #[trigger] books@[j].id != id,
        r is None ==> forall|j: int| 0 <= j < books@.len() ==> #[trigger] books@[j].id != id,
{
    let mut j: usize = 0;
    while j < books.len()
        invariant
            j <= books.len(),
            forall|t: int| 0 <= t < j ==> #[trigger] books@[t].id != id,
        decreases books.len() - j,
    {
        if books[j].id == id {
            assert(is_first_with_id(books@, id, j as int));
            assert(has_book(books@, id));
            proof {
                let c = first_book_index(books@, id);
                lemma_first_with_id_unique(books@, id, j as int, c);
            }
            return Some(j);
        }
        j = j + 1;
    }
    None
}

/// The chapter before `at` is the previous chapter of the same book while
/// `at` is past chapter 1; from chapter 1 or lower it is the last chapter of
/// the book with the largest id below `at`'s (the last such book in the
/// list when several share that id), and there is none exactly when no book
/// has a smaller id.
pub proof fn lemma_previous_chapter_is_the_greatest_earlier(books: Seq<Book>, at: ChapterRef)
    ensures
        at.chapter > 1 ==> spec_previous_chapter(books, at) == Some(
            ChapterRef { book_id: at.book_id, chapter: (at.chapter - 1) as i64 },
        ),
        at.chapter <= 1 ==> (spec_previous_chapter(books, at) is None <==> forall|j: int|
            0 <= j < books.len() ==> #[trigger] books[j].id >= at.book_id),
        at.chapter <= 1 && spec_previous_chapter(books, at) is Some ==> exists|i: int|
            0 <= i < books.len() && #[trigger] books[i].id < at.book_id && spec_previous_chapter(books, at)
                == Some(ChapterRef { book_id: books[i].id, chapter: books[i].chapter_count }) && (
            forall|j: int| 0 <= j < books.len() && books[j].id < at.book_id ==> books[j].id <= books[i].id)
                && (forall|j: int|
                i < j < books.len() && books[j].id < at.book_id ==> books[j].id < books[i].id),
{
    if at.chapter <= 1 {
        if has_book_below(books, at.book_id) {
            lemma_last_max_below_exists(books, at.book_id);
            let i = choose|i: int| is_last_max_below(books, at.book_id, i);
            assert(books[i].id < at.book_id);
        } else {
            assert forall|j: int| 0 <= j < books.len() implies #[trigger] books[j].id >= at.book_id by {
                if books[j].id < at.book_id {
                    assert(has_book_below(books, at.book_id));
                }
            }
        }
    }
}

/// The chapter after `at`: none when no book has `at`'s id; otherwise, for
/// the first book with that id, the next chapter of it while `at` is before
/// its last chapter, and from there chapter 1 of the book with the smallest
/// id above `at`'s (the first such book in the list when several share that
/// id), of which there is none exactly when no book has a larger id.
pub proof fn lemma_next_chapter_is_the_least_later(books: Seq<Book>, at: ChapterRef)
    ensures
        (forall|j: int| 0 <= j < books.len() ==> #[trigger] books[j].id != at.book_id)
            ==> spec_next_chapter(books, at) is None,
        forall|f: int|
            0 <= f < books.len() && #[trigger] books[f].id == at.book_id && (forall|j: int|
                0 <= j < f ==> books[j].id != at.book_id) ==> {
                &&& at.chapter < books[f].chapter_count ==> spec_next_chapter(books, at) == Some(
                    ChapterRef { book_id: at.book_id, chapter: (at.chapter + 1) as i64 },
                )
                &&& at.chapter >= books[f].chapter_count ==> (spec_next_chapter(books, at) is None
                    <==> forall|j: int| 0 <= j < books.len() ==> books[j].id <= at.book_id)
                &&& (at.chapter >= books[f].chapter_count && spec_next_chapter(books, at) is Some)
                    ==> exists|k: int|
                    0 <= k < books.len() && #[trigger] books[k].id > at.book_id && spec_next_chapter(
                        books,
                        at,
                    ) == Some(ChapterRef { book_id: books[k].id, chapter: 1 }) && (forall|j: int|
                        0 <= j < books.len() && books[j].id > at.book_id ==> books[k].id <= books[j].id)
                        && (forall|j: int|
                        0 <= j < k && books[j].id > at.book_id ==> books[k].id < books[j].id)
            },
{
    if has_book(books, at.book_id) {
        let w = choose|w: int| 0 <= w < books.len() && #[trigger] books[w].id == at.book_id;
        lemma_first_with_id_exists(books, at.book_id, w);
        let f0 = first_book_index(books, at.book_id);
        assert forall|f: int|
            0 <= f < books.len() && #[trigger] books[f].id == at.book_id && (forall|j: int|
                0 <= j < f ==> books[j].id != at.book_id) implies f == f0 by {
            assert(is_first_with_id(books, at.book_id, f));
            lemma_first_with_id_unique(books, at.book_id, f, f0);
        }
        if has_book_above(books, at.book_id) {
            lemma_first_min_above_exists(books, at.book_id);
            let k = choose|k: int| is_first_min_above(books, at.book_id, k);
            assert(books[k].id > at.book_id);
        } else {
            assert forall|j: int| 0 <= j < books.len() implies books[j].id <= at.book_id by {
                if books[j].id > at.book_id {
                    assert(has_book_above(books, at.book_id));
                }
            }
        }
    } else {
        assert forall|j: int| 0 <= j < books.len() implies #[trigger] books[j].id != at.book_id by {
            if books[j].id == at.book_id {
                assert(has_book(books, at.book_id));
            }
        }
    }
}

/// The chapter immediately before `at`, crossing into the previous book once
/// chapter 1 is reached. Returns `None` at the very start of the Bible
/// (Genesis 1) so callers know there's nowhere further back to go.
pub fn previous_chapter(books: &[Book], at: ChapterRef) -> (r: Option<ChapterRef>)
    ensures
        r == spec_previous_chapter(books@, at),
        at.chapter > 1 ==> r == Some(ChapterRef { book_id: at.book_id, chapter: (at.chapter - 1) as i64 }),
        at.chapter <= 1 ==> (r is None <==> forall|j: int|
            0 <= j < books@.len() ==> #[trigger] books@[j].id >= at.book_id),
        at.chapter <= 1 && r is Some ==> exists|i: int|
            0 <= i < books@.len() && #[trigger] books@[i].id < at.book_id && r == Some(
                ChapterRef { book_id: books@[i].id, chapter: books@[i].chapter_count },
            ) && (forall|j: int|
                0 <= j < books@.len() && books@[j].id < at.book_id ==> books@[j].id <= books@[i].id) && (
            forall|j: int| i < j < books@.len() && books@[j].id < at.book_id ==> books@[j].id < books@[i].id),
{
    proof {
        lemma_previous_chapter_is_the_greatest_earlier(books@, at);
    }
    if at.chapter > 1 {
        return Some(ChapterRef { book_id: at.book_id, chapter: at.chapter - 1 });
    }
    let mut best: Option<usize> = None;
    let mut j: usize = 0;
    while j < books.len()
        invariant
            j <= books.len(),
            best is None ==> forall|t: int| 0 <= t < j ==> #[trigger] books@[t].id >= at.book_id,
            best matches Some(b) ==> {
                &&& b < j
                &&& books@[b as int].id < at.book_id
                &&& forall|t: int| 0 <= t < j && #[trigger] books@[t].id < at.book_id
                    ==> books@[t].id <= books@[b as int].id
                &&& forall|t: int| b < t < j && #[trigger] books@[t].id < at.book_id
                    ==> books@[t].id < books@[b as int].id
            },
        decreases books.len() - j,
    {
        if books[j].id < at.book_id {
            match best {
                None => {
                    best = Some(j);
                },
                Some(b) => {
                    if books[j].id >= books[b].id {
                        best = Some(j);
                    }
                },
            }
        }
        j = j + 1;
    }
    match best {
        None => {
            assert(!has_book_below(books@, at.book_id));
            None
        },
        Some(b) => {
            assert(is_last_max_below(books@, at.book_id, b as int));
            proof {
                let c = choose|i: int| is_last_max_below(books@, at.book_id, i);
                lemma_last_max_below_unique(books@, at.book_id, b as int, c);
            }
            Some(ChapterRef { book_id: books[b].id, chapter: books[b].chapter_count })
        },
    }
}

/// The chapter immediately after `at`, crossing into the next book once the
/// current book's last chapter is reached. Returns `None` at the very end of
/// the Bible (Revelation 22).
pub fn next_chapter(books: &[Book], at: ChapterRef) -> (r: Option<ChapterRef>)
    ensures
        r == spec_next_chapter(books@, at),
        (forall|j: int| 0 <= j < books@.len() ==> #[trigger] books@[j].id != at.book_id) ==> r is None,
        forall|f: int|
            0 <= f < books@.len() && #[trigger] books@[f].id == at.book_id && (forall|j: int|
                0 <= j < f ==> books@[j].id != at.book_id) ==> {
                &&& at.chapter < books@[f].chapter_count ==> r == Some(
                    ChapterRef { book_id: at.book_id, chapter: (at.chapter + 1) as i64 },
                )
                &&& at.chapter >= books@[f].chapter_count ==> (r is None <==> forall|j: int|
                    0 <= j < books@.len() ==> books@[j].id <= at.book_id)
                &&& (at.chapter >= books@[f].chapter_count && r is Some) ==> exists|k: int|
                    0 <= k < books@.len() && #[trigger] books@[k].id > at.book_id && r == Some(
                        ChapterRef { book_id: books@[k].id, chapter: 1 },
                    ) && (forall|j: int|
                        0 <= j < books@.len() && books@[j].id > at.book_id ==> books@[k].id
                            <= books@[j].id) && (forall|j: int|
                        0 <= j < k && books@[j].id > at.book_id ==> books@[k].id < books@[j].id)
            },
{
    proof {
        lemma_next_chapter_is_the_least_later(books@, at);
    }
    let f = match find_book(books, at.book_id) {
        None => return None,
        Some(f) => f,
    };
    if at.chapter < books[f].chapter_count {
        return Some(ChapterRef { book_id: at.book_id, chapter: at.chapter + 1 });
    }
    let mut best: Option<usize> = None;
    let mut j: usize = 0;
    while j < books.len()
        invariant
            j <= books.len(),
            best is None ==> forall|t: int| 0 <= t < j ==> #[trigger] books@[t].id <= at.book_id,
            best matches Some(b) ==> {
                &&& b < j
                &&& books@[b as int].id > at.book_id
                &&& forall|t: int| 0 <= t < j && #[trigger] books@[t].id > at.book_id
                    ==> books@[b as int].id <= books@[t].id
                &&& forall|t: int| 0 <= t < b && #[trigger] books@[t].id > at.book_id
                    ==> books@[b as int].id < books@[t].id
            },
        decreases books.len() - j,
    {
        if books[j].id > at.book_id {
            match best {
                None => {
                    best = Some(j);
                },
                Some(b) => {
                    if books[j].id < books[b].id {
                        best = Some(j);
                    }
                },
            }
        }
        j = j + 1;
    }
    match best {
        None => {
            assert(!has_book_above(books@, at.book_id));
            None
        },
        Some(b) => {
            assert(is_first_min_above(books@, at.book_id, b as int));
            proof {
                let c = choose|i: int| is_first_min_above(books@, at.book_id, i);
                lemma_first_min_above_unique(books@, at.book_id, b as int, c);
            }
            Some(ChapterRef { book_id: books[b].id, chapter: 1 })
        },
    }
}


/// No two books share an id (the books table is keyed by id).
pub open spec fn books_have_distinct_ids(books: Seq<Book>) -> bool {
    forall|i: int, j: int|
        0 <= i < books.len() && 0 <= j < books.len() && i != j ==> #[trigger] books[i].id
            != #[trigger] books[j].id
}

/// Every book has at least one chapter.
pub open spec fn books_have_chapters(books: Seq<Book>) -> bool {
    forall|i: int| 0 <= i < books.len() ==> #[trigger] books[i].chapter_count >= 1
}

/// `at` names a chapter that exists: some book has its id, and its chapter
/// number lies between 1 and that book's chapter count.
pub open spec fn is_valid_position(books: Seq<Book>, at: ChapterRef) -> bool {
    exists|i: int|
        0 <= i < books.len() && #[trigger] books[i].id == at.book_id && 1 <= at.chapter
            <= books[i].chapter_count
}

/// `a` comes strictly before `b` in reading order: a smaller book id, or the
/// same book and a smaller chapter number.
pub open spec fn reads_before(a: ChapterRef, b: ChapterRef) -> bool {
    a.book_id < b.book_id || (a.book_id == b.book_id && a.chapter < b.chapter)
}

proof fn lemma_book_of_valid_position(books: Seq<Book>, at: ChapterRef, i: int)
    requires
        books_have_distinct_ids(books),
        is_valid_position(books, at),
        0 <= i < books.len(),
        books[i].id == at.book_id,
    ensures
        1 <= at.chapter <= books[i].chapter_count,
{
    let w = choose|w: int|
        0 <= w < books.len() && #[trigger] books[w].id == at.book_id && 1 <= at.chapter
            <= books[w].chapter_count;
    if w != i {
        assert(books[w].id != books[i].id);
    }
}

/// Stepping forward and then back returns to the chapter one started from:
/// for any existing chapter of a book list whose ids are distinct, when
/// `next_chapter` gives a chapter, `previous_chapter` of that chapter is the
/// starting one.
pub proof fn lemma_previous_undoes_next(books: Seq<Book>, at: ChapterRef)
    requires
        books_have_distinct_ids(books),
        is_valid_position(books, at),
    ensures
        spec_next_chapter(books, at) matches Some(n) ==> spec_previous_chapter(books, n) == Some(at),
{
    let w = choose|w: int|
        0 <= w < books.len() && #[trigger] books[w].id == at.book_id && 1 <= at.chapter
            <= books[w].chapter_count;
    assert(has_book(books, at.book_id));
    lemma_first_with_id_exists(books, at.book_id, w);
    let i = first_book_index(books, at.book_id);
    lemma_book_of_valid_position(books, at, i);
    if at.chapter < books[i].chapter_count {
    } else if has_book_above(books, at.book_id) {
        lemma_first_min_above_exists(books, at.book_id);
        let k = choose|k: int| is_first_min_above(books, at.book_id, k);
        let n = ChapterRef { book_id: books[k].id, chapter: 1 };
        // The starting book is the last book with the largest id below `n`'s.
        assert(is_last_max_below(books, n.book_id, i)) by {
            assert forall|j: int| 0 <= j < books.len() && #[trigger] books[j].id < n.book_id
                implies books[j].id <= books[i].id by {
                if books[j].id > at.book_id {
                    assert(books[k].id <= books[j].id);
                }
            }
            assert forall|j: int| i < j < books.len() && #[trigger] books[j].id < n.book_id
                implies books[j].id < books[i].id by {
                if books[j].id > at.book_id {
                    assert(books[k].id <= books[j].id);
                }
                assert(books[j].id != books[i].id);
            }
        }
        assert(has_book_below(books, n.book_id));
        lemma_last_max_below_exists(books, n.book_id);
        let c = choose|c: int| is_last_max_below(books, n.book_id, c);
        lemma_last_max_below_unique(books, n.book_id, i, c);
    }
}

/// Stepping back and then forward returns to the chapter one started from:
/// for any existing chapter of a book list whose ids are distinct, when
/// `previous_chapter` gives a chapter, `next_chapter` of that chapter is the
/// starting one.
pub proof fn lemma_next_undoes_previous(books: Seq<Book>, at: ChapterRef)
    requires
        books_have_distinct_ids(books),
        is_valid_position(books, at),
    ensures
        spec_previous_chapter(books, at) matches Some(p) ==> spec_next_chapter(books, p) == Some(at),
{
    let w = choose|w: int|
        0 <= w < books.len() && #[trigger] books[w].id == at.book_id && 1 <= at.chapter
            <= books[w].chapter_count;
    if at.chapter > 1 {
        let p = ChapterRef { book_id: at.book_id, chapter: (at.chapter - 1) as i64 };
        assert(has_book(books, p.book_id));
        lemma_first_with_id_exists(books, p.book_id, w);
        let i = first_book_index(books, p.book_id);
        lemma_book_of_valid_position(books, at, i);
    } else if has_book_below(books, at.book_id) {
        lemma_last_max_below_exists(books, at.book_id);
        let b = choose|b: int| is_last_max_below(books, at.book_id, b);
        let p = ChapterRef { book_id: books[b].id, chapter: books[b].chapter_count };
        assert(has_book(books, p.book_id));
        lemma_first_with_id_exists(books, p.book_id, b);
        let i = first_book_index(books, p.book_id);
        if i != b {
            assert(books[i].id != books[b].id);
        }
        assert(books[w].id > p.book_id);
        assert(has_book_above(books, p.book_id));
        // The starting book is the first book with the smallest id above `p`'s.
        assert(is_first_min_above(books, p.book_id, w)) by {
            assert forall|j: int| 0 <= j < books.len() && #[trigger] books[j].id > p.book_id
                implies books[w].id <= books[j].id by {
                if books[j].id < at.book_id {
                    assert(books[j].id <= books[b].id);
                }
            }
            assert forall|j: int| 0 <= j < w && #[trigger] books[j].id > p.book_id
                implies books[w].id < books[j].id by {
                if books[j].id < at.book_id {
                    assert(books[j].id <= books[b].id);
                }
                assert(books[j].id != books[w].id);
            }
        }
        lemma_first_min_above_exists(books, p.book_id);
        let k = choose|k: int| is_first_min_above(books, p.book_id, k);
        lemma_first_min_above_unique(books, p.book_id, w, k);
    }
}

/// Navigation never leaves the Bible and always moves in reading order: on a
/// book list with distinct ids where every book has a chapter, the chapter
/// after an existing chapter exists and comes after it, and the chapter
/// before an existing chapter exists and comes before it.
pub proof fn lemma_navigation_stays_in_order(books: Seq<Book>, at: ChapterRef)
    requires
        books_have_distinct_ids(books),
        books_have_chapters(books),
        is_valid_position(books, at),
    ensures
        spec_next_chapter(books, at) matches Some(n) ==> is_valid_position(books, n)
            && reads_before(at, n),
        spec_previous_chapter(books, at) matches Some(p) ==> is_valid_position(books, p)
            && reads_before(p, at),
{
    let w = choose|w: int|
        0 <= w < books.len() && #[trigger] books[w].id == at.book_id && 1 <= at.chapter
            <= books[w].chapter_count;
    assert(has_book(books, at.book_id));
    lemma_first_with_id_exists(books, at.book_id, w);
    let i = first_book_index(books, at.book_id);
    lemma_book_of_valid_position(books, at, i);
    if at.chapter < books[i].chapter_count {
        assert(books[i].id == at.book_id);
    } else if has_book_above(books, at.book_id) {
        lemma_first_min_above_exists(books, at.book_id);
        let k = choose|k: int| is_first_min_above(books, at.book_id, k);
        assert(books[k].chapter_count >= 1);
    }
    if at.chapter > 1 {
        assert(books[w].id == at.book_id);
    } else if has_book_below(books, at.book_id) {
        lemma_last_max_below_exists(books, at.book_id);
        let b = choose|b: int| is_last_max_below(books, at.book_id, b);
        assert(books[b].chapter_count >= 1);
    }
}

/// The ends of the Bible: for an existing chapter of a book list with
/// distinct ids, there is no chapter after it exactly when it is the last
/// chapter of the book with the largest id, and no chapter before it exactly
/// when it is chapter 1 of the book with the smallest id.
pub proof fn lemma_navigation_ends(books: Seq<Book>, at: ChapterRef, i: int)
    requires
        books_have_distinct_ids(books),
        0 <= i < books.len(),
        books[i].id == at.book_id,
        1 <= at.chapter <= books[i].chapter_count,
    ensures
        spec_next_chapter(books, at) is None <==> (at.chapter == books[i].chapter_count
            && forall|j: int| 0 <= j < books.len() ==> #[trigger] books[j].id <= at.book_id),
        spec_previous_chapter(books, at) is None <==> (at.chapter == 1 && forall|j: int|
            0 <= j < books.len() ==> #[trigger] books[j].id >= at.book_id),
{
    assert(has_book(books, at.book_id));
    lemma_first_with_id_exists(books, at.book_id, i);
    let f = first_book_index(books, at.book_id);
    if f != i {
        assert(books[f].id != books[i].id);
    }
    if !has_book_above(books, at.book_id) {
        assert forall|j: int| 0 <= j < books.len() implies #[trigger] books[j].id <= at.book_id by {
            if books[j].id > at.book_id {
                assert(has_book_above(books, at.book_id));
            }
        }
    }
    if !has_book_below(books, at.book_id) {
        assert forall|j: int| 0 <= j < books.len() implies #[trigger] books[j].id >= at.book_id by {
            if books[j].id < at.book_id {
                assert(has_book_below(books, at.book_id));
            }
        }
    }
}

/// The neighbors of a chapter of a known book are chapters of known books,
/// so a reading pane for a known book can always show them: when `at`'s
/// book is in the list, the book of the chapter before it and the book of
/// the chapter after it are in the list too.
pub proof fn lemma_neighbors_are_known_books(books: Seq<Book>, at: ChapterRef)
    requires
        has_book(books, at.book_id),
    ensures
        spec_previous_chapter(books, at) matches Some(p) ==> has_book(books, p.book_id),
        spec_next_chapter(books, at) matches Some(n) ==> has_book(books, n.book_id),
{
    if at.chapter <= 1 && has_book_below(books, at.book_id) {
        lemma_last_max_below_exists(books, at.book_id);
        let b = choose|b: int| is_last_max_below(books, at.book_id, b);
        assert(has_book(books, books[b].id));
    }
    let w = choose|w: int| 0 <= w < books.len() && #[trigger] books[w].id == at.book_id;
    lemma_first_with_id_exists(books, at.book_id, w);
    if has_book_above(books, at.book_id) {
        lemma_first_min_above_exists(books, at.book_id);
        let k = choose|k: int| is_first_min_above(books, at.book_id, k);
        assert(has_book(books, books[k].id));
    }
}

/// Two book lists hold the same books as far as navigation goes: every
/// book of each has a book with the same id and chapter count in the other
/// (names and testaments may differ, and the order is free).
pub open spec fn same_ids_and_counts(a: Seq<Book>, b: Seq<Book>) -> bool {
    &&& forall|i: int|
        0 <= i < a.len() ==> exists|j: int|
            0 <= j < b.len() && #[trigger] b[j].id == #[trigger] a[i].id && b[j].chapter_count
                == a[i].chapter_count
    &&& forall|j: int|
        0 <= j < b.len() ==> exists|i: int|
            0 <= i < a.len() && #[trigger] a[i].id == #[trigger] b[j].id && a[i].chapter_count
                == b[j].chapter_count
}

proof fn lemma_counterpart(a: Seq<Book>, b: Seq<Book>, i: int) -> (j: int)
    requires
        same_ids_and_counts(a, b),
        0 <= i < a.len(),
    ensures
        0 <= j < b.len(),
        b[j].id == a[i].id,
        b[j].chapter_count == a[i].chapter_count,
{
    choose|j: int|
        0 <= j < b.len() && #[trigger] b[j].id == #[trigger] a[i].id && b[j].chapter_count
            == a[i].chapter_count
}

proof fn lemma_counterpart_back(a: Seq<Book>, b: Seq<Book>, j: int) -> (i: int)
    requires
        same_ids_and_counts(a, b),
        0 <= j < b.len(),
    ensures
        0 <= i < a.len(),
        a[i].id == b[j].id,
        a[i].chapter_count == b[j].chapter_count,
{
    choose|i: int|
        0 <= i < a.len() && #[trigger] a[i].id == #[trigger] b[j].id && a[i].chapter_count
            == b[j].chapter_count
}

/// Navigation depends only on the books' ids and chapter counts, not on the
/// order of the list: for two lists with distinct ids that hold the same
/// books (each with the same id and chapter count), the chapter before and
/// the chapter after any chapter are the same in both.
pub proof fn lemma_navigation_ignores_list_order(a: Seq<Book>, b: Seq<Book>, at: ChapterRef)
    requires
        books_have_distinct_ids(a),
        books_have_distinct_ids(b),
        same_ids_and_counts(a, b),
    ensures
        spec_previous_chapter(a, at) == spec_previous_chapter(b, at),
        spec_next_chapter(a, at) == spec_next_chapter(b, at),
{
    // The same ids lie below and above `at`'s.
    if has_book_below(a, at.book_id) {
        let w = choose|w: int| 0 <= w < a.len() && #[trigger] a[w].id < at.book_id;
        let v = lemma_counterpart(a, b, w);
        assert(b[v].id < at.book_id);
    }
    if has_book_below(b, at.book_id) {
        let w = choose|w: int| 0 <= w < b.len() && #[trigger] b[w].id < at.book_id;
        let v = lemma_counterpart_back(a, b, w);
        assert(a[v].id < at.book_id);
    }
    if has_book_above(a, at.book_id) {
        let w = choose|w: int| 0 <= w < a.len() && #[trigger] a[w].id > at.book_id;
        let v = lemma_counterpart(a, b, w);
        assert(b[v].id > at.book_id);
    }
    if has_book_above(b, at.book_id) {
        let w = choose|w: int| 0 <= w < b.len() && #[trigger] b[w].id > at.book_id;
        let v = lemma_counterpart_back(a, b, w);
        assert(a[v].id > at.book_id);
    }
    if has_book(a, at.book_id) {
        let w = choose|w: int| 0 <= w < a.len() && #[trigger] a[w].id == at.book_id;
        let v = lemma_counterpart(a, b, w);
        assert(b[v].id == at.book_id);
    }
    if has_book(b, at.book_id) {
        let w = choose|w: int| 0 <= w < b.len() && #[trigger] b[w].id == at.book_id;
        let v = lemma_counterpart_back(a, b, w);
        assert(a[v].id == at.book_id);
    }
    // The chapter before.
    if at.chapter <= 1 && has_book_below(a, at.book_id) {
        lemma_last_max_below_exists(a, at.book_id);
        lemma_last_max_below_exists(b, at.book_id);
        let x = choose|i: int| is_last_max_below(a, at.book_id, i);
        let y = choose|i: int| is_last_max_below(b, at.book_id, i);
        let xb = lemma_counterpart(a, b, x);
        let ya = lemma_counterpart_back(a, b, y);
        assert(b[xb].id <= b[y].id);
        assert(a[ya].id <= a[x].id);
        if xb != y {
            assert(b[xb].id != b[y].id);
        }
    }
    // The chapter after.
    if has_book(a, at.book_id) {
        let w = choose|w: int| 0 <= w < a.len() && #[trigger] a[w].id == at.book_id;
        lemma_first_with_id_exists(a, at.book_id, w);
        let v = lemma_counterpart(a, b, w);
        lemma_first_with_id_exists(b, at.book_id, v);
        let f = first_book_index(a, at.book_id);
        let g = first_book_index(b, at.book_id);
        let fb = lemma_counterpart(a, b, f);
        if fb != g {
            assert(b[fb].id != b[g].id);
        }
        if has_book_above(a, at.book_id) {
            lemma_first_min_above_exists(a, at.book_id);
            lemma_first_min_above_exists(b, at.book_id);
            let x = choose|i: int| is_first_min_above(a, at.book_id, i);
            let y = choose|i: int| is_first_min_above(b, at.book_id, i);
            let xb = lemma_counterpart(a, b, x);
            let ya = lemma_counterpart_back(a, b, y);
            assert(b[y].id <= b[xb].id);
            assert(a[x].id <= a[ya].id);
        }
    }
}

} // verus!
