use vstd::prelude::*;

use crate::db::models::Book;

verus! {

/// One book of a bundled translation, as its data file holds it: the book's
/// name, its testament, and the text of each verse of each chapter.
#[derive(Debug, Clone)]
pub struct RawBook {
    pub name: String,
    pub testament: String,
    pub chapters: Vec<Vec<String>>,
}

/// One row of the verses table.
#[derive(Debug, Clone)]
pub struct VerseRow {
    pub translation_id: i64,
    pub book_id: i64,
    pub chapter: i64,
    pub verse: i64,
    pub text: String,
}

/// A bundled translation that the seed step inserts: which source it is (its
/// position in the bundled list), the id it gets, and whether the shared
/// book structure is inserted along with it.
#[derive(Debug, Clone, Copy, PartialEq, Eq, Structural)]
pub struct PlannedTranslation {
    pub source_index: usize,
    pub translation_id: i64,
    pub seeds_books: bool,
}

/// The texts of a list of strings.
pub open spec fn texts(s: Seq<String>) -> Seq<Seq<char>> {
    s.map_values(|c: String| c@)
}

/// The seed plan after looking at the first `n` bundled codes, starting from
/// the codes already `present`, whether the books are already seeded, and
/// the first free id: the planned (source index, id, seeds books) entries,
/// the codes present afterwards, and whether the books are seeded
/// afterwards. A code is planned when it is not yet present; it then
/// becomes present, takes the next id, and seeds the books if nothing has
/// seeded them yet.
pub open spec fn seed_plan_prefix(
    present: Seq<Seq<char>>,
    books_seeded: bool,
    first_id: int,
    codes: Seq<Seq<char>>,
    n: nat,
) -> (Seq<(int, int, bool)>, Seq<Seq<char>>, bool)
    decreases n,
{
    if n == 0 {
        (Seq::empty(), present, books_seeded)
    } else {
        let (planned, pres, seeded) = seed_plan_prefix(
            present,
            books_seeded,
            first_id,
            codes,
            (n - 1) as nat,
        );
        let code = codes[n - 1];
        if pres.contains(code) {
            (planned, pres, seeded)
        } else {
            (planned.push(((n - 1) as int, first_id + planned.len(), !seeded)), pres.push(code), true)
        }
    }
}

/// The whole seed plan for the bundled `codes`, given the codes already in
/// the translations table, the number of books already seeded and the
/// largest translation id so far.
pub open spec fn spec_seed_plan(
    present: Seq<Seq<char>>,
    book_count: i64,
    max_translation_id: Option<i64>,
    codes: Seq<Seq<char>>,
) -> Seq<(int, int, bool)> {
    let max_id: int = match max_translation_id {
        Some(m) => m as int,
        None => 0,
    };
    seed_plan_prefix(present, book_count > 0, max_id + 1, codes, codes.len()).0
}

/// A planned translation as a plain (source index, id, seeds books) triple.
pub open spec fn planned_view(p: PlannedTranslation) -> (int, int, bool) {
    (p.source_index as int, p.translation_id as int, p.seeds_books)
}

fn contains_code(codes: &Vec<String>, code: &String) -> (r: bool)
    ensures
        r == texts(codes@).contains(code@),
{
    let mut j: usize = 0;
    while j < codes.len()
        invariant
            j <= codes.len(),
            forall|t: int| 0 <= t < j ==> (#[trigger] codes@[t])@ != code@,
        decreases codes.len() - j,
    {
        if codes[j] == *code {
            assert(texts(codes@)[j as int] == code@);
            return true;
        }
        j = j + 1;
    }
    assert(!texts(codes@).contains(code@)) by {
        if texts(codes@).contains(code@) {
            let t = choose|t: int| 0 <= t < texts(codes@).len() && texts(codes@)[t] == code@;
            assert(codes@[t]@ != code@);
        }
    }
    false
}

/// Decide which bundled translations the seed step inserts — only whatever
/// is missing, each judged on its own code, not on whether the database is
/// empty — and the ids they get (counting on from the largest id so far);
/// the shared book structure goes in with the first one inserted when no
/// book is there yet. `None` when counting on would pass `i64::MAX`.
pub fn plan_seed(
    present_codes: &Vec<String>,
    book_count: i64,
    max_translation_id: Option<i64>,
    source_codes: &Vec<String>,
) -> (r: Option<Vec<PlannedTranslation>>)
    ensures
        ({
            let plan = spec_seed_plan(
                texts(present_codes@),
                book_count,
                max_translation_id,
                texts(source_codes@),
            );
            let max_id: int = match max_translation_id {
                Some(m) => m as int,
                None => 0,
            };
            match r {
                Some(p) => max_id + 1 + plan.len() <= i64::MAX && p@.map_values(
                    |q: PlannedTranslation| planned_view(q),
                ) == plan,
                None => max_id + 1 + plan.len() > i64::MAX,
            }
        }),
{
    let max_id: i64 = match max_translation_id {
        Some(m) => m,
        None => 0,
    };
    if max_id == i64::MAX {
        return None;
    }
    let first_id: i64 = max_id + 1;
    let mut next_id: i64 = first_id;
    let mut present: Vec<String> = present_codes.clone();
    let mut books_seeded: bool = book_count > 0;
    let mut planned: Vec<PlannedTranslation> = Vec::new();
    let ghost codes = texts(source_codes@);
    let ghost start = texts(present_codes@);
    let mut k: usize = 0;
    while k < source_codes.len()
        invariant
            k <= source_codes.len(),
            codes == texts(source_codes@),
            start == texts(present_codes@),
            first_id == max_id + 1,
            max_id == match max_translation_id {
                Some(m) => m,
                None => 0,
            },
            ({
                let s = seed_plan_prefix(start, book_count > 0, first_id as int, codes, k as nat);
                &&& planned@.map_values(|q: PlannedTranslation| planned_view(q)) == s.0
                &&& texts(present@) == s.1
                &&& books_seeded == s.2
            }),
            next_id == first_id + planned@.len(),
        decreases source_codes.len() - k,
    {
        let ghost before = planned@;
        let ghost before_present = present@;
        if !contains_code(&present, &source_codes[k]) {
            if next_id == i64::MAX {
                proof {
                    assert(seed_plan_prefix(start, book_count > 0, first_id as int, codes, (k + 1) as nat).0.len()
                        == planned@.len() + 1);
                    lemma_plan_prefix_grows(
                        start,
                        book_count > 0,
                        first_id as int,
                        codes,
                        (k + 1) as nat,
                        codes.len(),
                    );
                }
                return None;
            }
            planned.push(
                PlannedTranslation {
                    source_index: k,
                    translation_id: next_id,
                    seeds_books: !books_seeded,
                },
            );
            present.push(source_codes[k].clone());
            books_seeded = true;
            next_id = next_id + 1;
            assert(planned@.map_values(|q: PlannedTranslation| planned_view(q)) =~= before.map_values(
                |q: PlannedTranslation| planned_view(q),
            ).push(planned_view(planned@[before.len() as int])));
            assert(texts(present@) =~= texts(before_present).push(codes[k as int]));
        }
        k = k + 1;
    }
    Some(planned)
}

/// Looking at more bundled codes never shrinks the plan.
proof fn lemma_plan_prefix_grows(
    present: Seq<Seq<char>>,
    books_seeded: bool,
    first_id: int,
    codes: Seq<Seq<char>>,
    n: nat,
    m: nat,
)
    requires
        n <= m,
    ensures
        seed_plan_prefix(present, books_seeded, first_id, codes, n).0.len() <= seed_plan_prefix(
            present,
            books_seeded,
            first_id,
            codes,
            m,
        ).0.len(),
    decreases m - n,
{
    if n < m {
        lemma_plan_prefix_grows(present, books_seeded, first_id, codes, n, (m - 1) as nat);
    }
}

/// Within the plan for the first `n` codes, entry `k` takes id
/// `first_id + k`, and only the first entry seeds the books, and only when
/// they were not seeded before.
proof fn lemma_plan_prefix_ids(
    present: Seq<Seq<char>>,
    books_seeded: bool,
    first_id: int,
    codes: Seq<Seq<char>>,
    n: nat,
)
    requires
        n <= codes.len(),
    ensures
        ({
            let s = seed_plan_prefix(present, books_seeded, first_id, codes, n);
            &&& forall|k: int|
                0 <= k < s.0.len() ==> (#[trigger] s.0[k]).1 == first_id + k && s.0[k].2 == (k
                    == 0 && !books_seeded)
            &&& s.2 == (books_seeded || s.0.len() > 0)
            &&& forall|k: int| 0 <= k < s.0.len() ==> 0 <= (#[trigger] s.0[k]).0 < n
            &&& forall|k: int, l: int| 0 <= k < l < s.0.len() ==> (#[trigger] s.0[k]).0 < (#[trigger] s.0[l]).0
        }),
    decreases n,
{
    if n > 0 {
        lemma_plan_prefix_ids(present, books_seeded, first_id, codes, (n - 1) as nat);
    }
}

/// After the plan for the first `n` codes, a code is present exactly when
/// it was present at the start or is one of those `n` codes; and source `i`
/// is planned exactly when its code was not present at the start and no
/// earlier source has the same code.
proof fn lemma_plan_prefix_presence(
    present: Seq<Seq<char>>,
    books_seeded: bool,
    first_id: int,
    codes: Seq<Seq<char>>,
    n: nat,
)
    requires
        n <= codes.len(),
    ensures
        ({
            let s = seed_plan_prefix(present, books_seeded, first_id, codes, n);
            &&& forall|c: Seq<char>|
                #[trigger] s.1.contains(c) <==> (present.contains(c) || exists|j: int|
                    0 <= j < n && codes[j] == c)
            &&& forall|i: int|
                0 <= i < n ==> ((exists|k: int| 0 <= k < s.0.len() && #[trigger] s.0[k].0 == i) <==> (
                !present.contains(codes[i]) && forall|j: int| 0 <= j < i ==> codes[j] != codes[i]))
        }),
    decreases n,
{
    if n > 0 {
        let m = (n - 1) as nat;
        lemma_plan_prefix_presence(present, books_seeded, first_id, codes, m);
        lemma_plan_prefix_ids(present, books_seeded, first_id, codes, m);
        let prev = seed_plan_prefix(present, books_seeded, first_id, codes, m);
        let s = seed_plan_prefix(present, books_seeded, first_id, codes, n);
        let code = codes[m as int];
        assert forall|c: Seq<char>|
            #[trigger] s.1.contains(c) <==> (present.contains(c) || exists|j: int|
                0 <= j < n && codes[j] == c) by {
            if prev.1.contains(code) {
            } else {
                if s.1.contains(c) && c != code {
                    let t = choose|t: int| 0 <= t < s.1.len() && s.1[t] == c;
                    assert(prev.1[t] == c);
                }
                if c == code {
                    assert(s.1[s.1.len() - 1] == c);
                }
                if prev.1.contains(c) {
                    let t = choose|t: int| 0 <= t < prev.1.len() && prev.1[t] == c;
                    assert(s.1[t] == c);
                }
            }
            if exists|j: int| 0 <= j < n && codes[j] == c {
                let j = choose|j: int| 0 <= j < n && codes[j] == c;
                if j < m {
                    assert(prev.1.contains(c));
                }
            }
        }
        assert forall|i: int| 0 <= i < n implies ((exists|k: int|
            0 <= k < s.0.len() && #[trigger] s.0[k].0 == i) <==> (!present.contains(codes[i])
            && forall|j: int| 0 <= j < i ==> codes[j] != codes[i])) by {
            if i < m {
                if exists|k: int| 0 <= k < s.0.len() && #[trigger] s.0[k].0 == i {
                    let k = choose|k: int| 0 <= k < s.0.len() && #[trigger] s.0[k].0 == i;
                    if k < prev.0.len() {
                        assert(prev.0[k].0 == i);
                    }
                }
                if exists|k: int| 0 <= k < prev.0.len() && #[trigger] prev.0[k].0 == i {
                    let k = choose|k: int| 0 <= k < prev.0.len() && #[trigger] prev.0[k].0 == i;
                    assert(s.0[k].0 == i);
                }
            } else {
                // i is the newest source
                if prev.1.contains(code) {
                    if exists|k: int| 0 <= k < s.0.len() && #[trigger] s.0[k].0 == i {
                        let k = choose|k: int| 0 <= k < s.0.len() && #[trigger] s.0[k].0 == i;
                        assert(prev.0[k].0 < m);
                    }
                    if !present.contains(code) {
                        let j = choose|j: int| 0 <= j < m && codes[j] == code;
                        assert(codes[j] == codes[i]);
                    }
                } else {
                    assert(s.0[s.0.len() - 1].0 == i);
                    assert forall|j: int| 0 <= j < i implies codes[j] != codes[i] by {
                        if codes[j] == codes[i] {
                            assert(prev.1.contains(code));
                        }
                    }
                }
            }
        }
    }
}

/// When every code is already present, the plan is empty and nothing changes.
proof fn lemma_plan_prefix_all_present(
    present: Seq<Seq<char>>,
    books_seeded: bool,
    first_id: int,
    codes: Seq<Seq<char>>,
    n: nat,
)
    requires
        n <= codes.len(),
        forall|j: int| 0 <= j < codes.len() ==> present.contains(#[trigger] codes[j]),
    ensures
        seed_plan_prefix(present, books_seeded, first_id, codes, n) == (
            Seq::<(int, int, bool)>::empty(),
            present,
            books_seeded,
        ),
    decreases n,
{
    if n > 0 {
        lemma_plan_prefix_all_present(present, books_seeded, first_id, codes, (n - 1) as nat);
        assert(present.contains(codes[n - 1]));
    }
}

/// The translations table after seeding: the codes present before, followed
/// by the codes of the planned translations.
pub open spec fn codes_after_seed(
    present: Seq<Seq<char>>,
    book_count: i64,
    max_translation_id: Option<i64>,
    codes: Seq<Seq<char>>,
) -> Seq<Seq<char>> {
    let max_id: int = match max_translation_id {
        Some(m) => m as int,
        None => 0,
    };
    seed_plan_prefix(present, book_count > 0, max_id + 1, codes, codes.len()).1
}

/// The seed only fills in what is missing, and fills each missing
/// translation once: a bundled translation is planned exactly when its code
/// is not in the table yet and no earlier bundled translation has the same
/// code; planned translations come in bundled order, take consecutive ids
/// counting on from the largest id so far, and only the first of them
/// brings the shared book structure, and only when no book is there yet.
pub proof fn lemma_seed_fills_only_missing(
    present: Seq<Seq<char>>,
    book_count: i64,
    max_translation_id: Option<i64>,
    codes: Seq<Seq<char>>,
)
    ensures
        ({
            let plan = spec_seed_plan(present, book_count, max_translation_id, codes);
            let max_id: int = match max_translation_id {
                Some(m) => m as int,
                None => 0,
            };
            &&& forall|i: int|
                0 <= i < codes.len() ==> ((exists|k: int| 0 <= k < plan.len() && #[trigger] plan[k].0 == i)
                    <==> (!present.contains(codes[i]) && forall|j: int| 0 <= j < i ==> codes[j] != codes[i]))
            &&& forall|k: int|
                0 <= k < plan.len() ==> (#[trigger] plan[k]).1 == max_id + 1 + k && plan[k].2 == (k == 0
                    && book_count <= 0)
            &&& forall|k: int, l: int| 0 <= k < l < plan.len() ==> (#[trigger] plan[k]).0 < (#[trigger] plan[l]).0
        }),
{
    let max_id: int = match max_translation_id {
        Some(m) => m as int,
        None => 0,
    };
    lemma_plan_prefix_ids(present, book_count > 0, max_id + 1, codes, codes.len());
    lemma_plan_prefix_presence(present, book_count > 0, max_id + 1, codes, codes.len());
    let plan = spec_seed_plan(present, book_count, max_translation_id, codes);
    assert(plan == seed_plan_prefix(present, book_count > 0, max_id + 1, codes, codes.len()).0);
}

/// Seeding again is a no-op: once a seed has added what was missing, a second
/// seed over the same bundled translations plans nothing, whatever the book
/// count and largest id it then finds.
pub proof fn lemma_seed_is_idempotent(
    present: Seq<Seq<char>>,
    book_count: i64,
    max_translation_id: Option<i64>,
    codes: Seq<Seq<char>>,
    later_book_count: i64,
    later_max_translation_id: Option<i64>,
)
    ensures
        spec_seed_plan(
            codes_after_seed(present, book_count, max_translation_id, codes),
            later_book_count,
            later_max_translation_id,
            codes,
        ).len() == 0,
{
    let max_id: int = match max_translation_id {
        Some(m) => m as int,
        None => 0,
    };
    let later_max: int = match later_max_translation_id {
        Some(m) => m as int,
        None => 0,
    };
    lemma_plan_prefix_presence(present, book_count > 0, max_id + 1, codes, codes.len());
    let after = codes_after_seed(present, book_count, max_translation_id, codes);
    assert forall|j: int| 0 <= j < codes.len() implies after.contains(#[trigger] codes[j]) by {
        assert(exists|t: int| 0 <= t < codes.len() && codes[t] == codes[j]);
    }
    lemma_plan_prefix_all_present(after, later_book_count > 0, later_max + 1, codes, codes.len());
}

/// The rows of the books table for a translation's books: book `k` (from
/// 0) gets id `k + 1`, its name, its testament and its number of chapters.
pub open spec fn book_rows(books: Seq<RawBook>) -> Seq<Book> {
    Seq::new(
        books.len(),
        |k: int|
            Book {
                id: (k + 1) as i64,
                name: books[k].name,
                testament: books[k].testament,
                chapter_count: books[k].chapters@.len() as i64,
            },
    )
}

/// The verse rows of one chapter: verse `v` (from 0) gets number `v + 1`.
pub open spec fn chapter_verse_rows(
    translation_id: i64,
    book_id: i64,
    chapter: i64,
    verses: Seq<String>,
) -> Seq<VerseRow> {
    Seq::new(
        verses.len(),
        |v: int|
            VerseRow { translation_id, book_id, chapter, verse: (v + 1) as i64, text: verses[v] },
    )
}

/// The verse rows of one book, chapter by chapter: chapter `c` (from 0) gets
/// number `c + 1`.
pub open spec fn book_verse_rows(translation_id: i64, book_id: i64, chapters: Seq<Vec<String>>) -> Seq<
    VerseRow,
>
    decreases chapters.len(),
{
    if chapters.len() == 0 {
        Seq::empty()
    } else {
        book_verse_rows(translation_id, book_id, chapters.drop_last()) + chapter_verse_rows(
            translation_id,
            book_id,
            chapters.len() as i64,
            chapters.last()@,
        )
    }
}

/// The verse rows of a whole translation, book by book: book `k` (from 0)
/// gets id `k + 1`.
pub open spec fn verse_rows(translation_id: i64, books: Seq<RawBook>) -> Seq<VerseRow>
    decreases books.len(),
{
    if books.len() == 0 {
        Seq::empty()
    } else {
        verse_rows(translation_id, books.drop_last()) + book_verse_rows(
            translation_id,
            books.len() as i64,
            books.last().chapters@,
        )
    }
}

/// Every count that becomes an id or a number fits in an `i64`.
pub open spec fn raw_books_fit(books: Seq<RawBook>) -> bool {
    &&& books.len() < i64::MAX
    &&& forall|k: int| 0 <= k < books.len() ==> (#[trigger] books[k]).chapters@.len() < i64::MAX
    &&& forall|k: int, c: int|
        0 <= k < books.len() && 0 <= c < books[k].chapters@.len() ==> (
        #[trigger] books[k].chapters@[c])@.len() < i64::MAX
}

/// Each books-table row carries its own book: row `k` (from 0) has id
/// `k + 1` and book `k`'s name, testament and number of chapters.
pub proof fn lemma_book_rows_carry_each_book(books: Seq<RawBook>)
    requires
        raw_books_fit(books),
    ensures
        book_rows(books).len() == books.len(),
        forall|k: int|
            0 <= k < books.len() ==> (#[trigger] book_rows(books)[k]).id == k + 1 && book_rows(books)[k].name
                == books[k].name && book_rows(books)[k].testament == books[k].testament && book_rows(
                books,
            )[k].chapter_count == books[k].chapters@.len(),
{
}

/// The number of verses in a list of chapters.
pub open spec fn chapter_verse_total(chapters: Seq<Vec<String>>) -> int
    decreases chapters.len(),
{
    if chapters.len() == 0 {
        0
    } else {
        chapter_verse_total(chapters.drop_last()) + chapters.last()@.len()
    }
}

/// The number of verses in a translation's books.
pub open spec fn total_verses(books: Seq<RawBook>) -> int
    decreases books.len(),
{
    if books.len() == 0 {
        0
    } else {
        total_verses(books.drop_last()) + chapter_verse_total(books.last().chapters@)
    }
}

/// `row` is the row of an existing verse of `books`, numbered from 1, with
/// that verse's own text.
pub open spec fn verse_row_in_place(translation_id: i64, books: Seq<RawBook>, row: VerseRow) -> bool {
    &&& row.translation_id == translation_id
    &&& 1 <= row.book_id <= books.len()
    &&& 1 <= row.chapter <= books[row.book_id - 1].chapters@.len()
    &&& 1 <= row.verse <= books[row.book_id - 1].chapters@[row.chapter - 1]@.len()
    &&& row.text == books[row.book_id - 1].chapters@[row.chapter - 1]@[row.verse - 1]
}

/// Row `a` comes before row `b` in reading order: an earlier book, or the
/// same book and an earlier chapter, or the same chapter and an earlier
/// verse.
pub open spec fn reads_before(a: VerseRow, b: VerseRow) -> bool {
    ||| a.book_id < b.book_id
    ||| a.book_id == b.book_id && a.chapter < b.chapter
    ||| a.book_id == b.book_id && a.chapter == b.chapter && a.verse < b.verse
}

proof fn lemma_book_verse_rows_in_place(translation_id: i64, book_id: i64, chapters: Seq<Vec<String>>)
    requires
        chapters.len() < i64::MAX,
        forall|c: int| 0 <= c < chapters.len() ==> (#[trigger] chapters[c])@.len() < i64::MAX,
    ensures
        ({
            let rows = book_verse_rows(translation_id, book_id, chapters);
            &&& rows.len() == chapter_verse_total(chapters)
            &&& forall|t: int|
                0 <= t < rows.len() ==> {
                    let row = #[trigger] rows[t];
                    &&& row.translation_id == translation_id
                    &&& row.book_id == book_id
                    &&& 1 <= row.chapter <= chapters.len()
                    &&& 1 <= row.verse <= chapters[row.chapter - 1]@.len()
                    &&& row.text == chapters[row.chapter - 1]@[row.verse - 1]
                }
            &&& forall|t: int, u: int|
                0 <= t < u < rows.len() ==> (#[trigger] rows[t]).chapter < (#[trigger] rows[u]).chapter
                    || (rows[t].chapter == rows[u].chapter && rows[t].verse < rows[u].verse)
        }),
    decreases chapters.len(),
{
    if chapters.len() > 0 {
        let prev = chapters.drop_last();
        lemma_book_verse_rows_in_place(translation_id, book_id, prev);
        let head = book_verse_rows(translation_id, book_id, prev);
        let last = chapter_verse_rows(translation_id, book_id, chapters.len() as i64, chapters.last()@);
        let rows = book_verse_rows(translation_id, book_id, chapters);
        assert(rows == head + last);
        assert forall|t: int| 0 <= t < rows.len() implies {
            let row = #[trigger] rows[t];
            &&& row.translation_id == translation_id
            &&& row.book_id == book_id
            &&& 1 <= row.chapter <= chapters.len()
            &&& 1 <= row.verse <= chapters[row.chapter - 1]@.len()
            &&& row.text == chapters[row.chapter - 1]@[row.verse - 1]
        } by {
            if t < head.len() {
                assert(rows[t] == head[t]);
                assert(prev[head[t].chapter - 1] == chapters[head[t].chapter - 1]);
            } else {
                assert(rows[t] == last[t - head.len()]);
            }
        }
        assert forall|t: int, u: int| 0 <= t < u < rows.len() implies (#[trigger] rows[t]).chapter < (
        #[trigger] rows[u]).chapter || (rows[t].chapter == rows[u].chapter && rows[t].verse
            < rows[u].verse) by {
            if u < head.len() {
                assert(rows[t] == head[t]);
                assert(rows[u] == head[u]);
            } else if t < head.len() {
                assert(rows[t] == head[t]);
                assert(rows[u] == last[u - head.len()]);
            } else {
                assert(rows[t] == last[t - head.len()]);
                assert(rows[u] == last[u - head.len()]);
            }
        }
    }
}

/// The verse rows are exactly the verses of the books: one row per verse
/// (as many rows as verses), each the row of an existing verse with that
/// verse's own text, in strict reading order, so that no verse is left out,
/// repeated or moved.
pub proof fn lemma_verse_rows_cover_every_verse(translation_id: i64, books: Seq<RawBook>)
    requires
        raw_books_fit(books),
    ensures
        verse_rows(translation_id, books).len() == total_verses(books),
        forall|t: int|
            0 <= t < verse_rows(translation_id, books).len() ==> verse_row_in_place(
                translation_id,
                books,
                #[trigger] verse_rows(translation_id, books)[t],
            ),
        forall|t: int, u: int|
            0 <= t < u < verse_rows(translation_id, books).len() ==> reads_before(
                #[trigger] verse_rows(translation_id, books)[t],
                #[trigger] verse_rows(translation_id, books)[u],
            ),
    decreases books.len(),
{
    if books.len() > 0 {
        let prev = books.drop_last();
        assert(raw_books_fit(prev)) by {
            assert forall|k: int| 0 <= k < prev.len() implies (#[trigger] prev[k]).chapters@.len()
                < i64::MAX by {
                assert(prev[k] == books[k]);
            }
            assert forall|k: int, c: int|
                0 <= k < prev.len() && 0 <= c < prev[k].chapters@.len() implies (
                #[trigger] prev[k].chapters@[c])@.len() < i64::MAX by {
                assert(prev[k] == books[k]);
            }
        }
        lemma_verse_rows_cover_every_verse(translation_id, prev);
        let b = books.len() - 1;
        let chapters = books.last().chapters@;
        assert(books.last() == books[b]);
        assert forall|c: int| 0 <= c < chapters.len() implies (#[trigger] chapters[c])@.len()
            < i64::MAX by {
            assert(books[b].chapters@[c] == chapters[c]);
        }
        lemma_book_verse_rows_in_place(translation_id, books.len() as i64, chapters);
        let head = verse_rows(translation_id, prev);
        let last = book_verse_rows(translation_id, books.len() as i64, chapters);
        let rows = verse_rows(translation_id, books);
        assert(rows == head + last);
        assert forall|t: int| 0 <= t < rows.len() implies verse_row_in_place(
            translation_id,
            books,
            #[trigger] rows[t],
        ) by {
            if t < head.len() {
                assert(rows[t] == head[t]);
                assert(verse_row_in_place(translation_id, prev, head[t]));
                assert(prev[head[t].book_id - 1] == books[head[t].book_id - 1]);
            } else {
                assert(rows[t] == last[t - head.len()]);
                assert(last[t - head.len()].book_id == books.len());
            }
        }
        assert forall|t: int, u: int| 0 <= t < u < rows.len() implies reads_before(
            #[trigger] rows[t],
            #[trigger] rows[u],
        ) by {
            if u < head.len() {
                assert(rows[t] == head[t]);
                assert(rows[u] == head[u]);
            } else if t < head.len() {
                assert(rows[t] == head[t]);
                assert(verse_row_in_place(translation_id, prev, head[t]));
                assert(rows[u] == last[u - head.len()]);
                assert(last[u - head.len()].book_id == books.len());
            } else {
                assert(rows[t] == last[t - head.len()]);
                assert(rows[u] == last[u - head.len()]);
            }
        }
    }
}

fn push_chapter_rows(
    rows: &mut Vec<VerseRow>,
    translation_id: i64,
    book_id: i64,
    chapter: i64,
    verses: &Vec<String>,
)
    requires
        verses@.len() < i64::MAX,
    ensures
        final(rows)@ == old(rows)@ + chapter_verse_rows(translation_id, book_id, chapter, verses@),
{
    let ghost start = rows@;
    let mut v: usize = 0;
    while v < verses.len()
        invariant
            v <= verses.len() < i64::MAX,
            rows@ == start + chapter_verse_rows(
                translation_id,
                book_id,
                chapter,
                verses@.take(v as int),
            ),
        decreases verses.len() - v,
    {
        rows.push(
            VerseRow {
                translation_id,
                book_id,
                chapter,
                verse: (v + 1) as i64,
                text: verses[v].clone(),
            },
        );
        v = v + 1;
        assert(rows@ =~= start + chapter_verse_rows(
            translation_id,
            book_id,
            chapter,
            verses@.take(v as int),
        ));
    }
    assert(verses@.take(verses.len() as int) =~= verses@);
}

fn push_book_rows(
    rows: &mut Vec<VerseRow>,
    translation_id: i64,
    book_id: i64,
    chapters: &Vec<Vec<String>>,
)
    requires
        chapters@.len() < i64::MAX,
        forall|c: int| 0 <= c < chapters@.len() ==> (#[trigger] chapters@[c])@.len() < i64::MAX,
    ensures
        final(rows)@ == old(rows)@ + book_verse_rows(translation_id, book_id, chapters@),
{
    let ghost start = rows@;
    let mut c: usize = 0;
    while c < chapters.len()
        invariant
            c <= chapters.len() < i64::MAX,
            forall|t: int| 0 <= t < chapters@.len() ==> (#[trigger] chapters@[t])@.len() < i64::MAX,
            rows@ == start + book_verse_rows(translation_id, book_id, chapters@.take(c as int)),
        decreases chapters.len() - c,
    {
        let ghost before = rows@;
        push_chapter_rows(rows, translation_id, book_id, (c + 1) as i64, &chapters[c]);
        proof {
            let taken = chapters@.take(c + 1);
            assert(taken.drop_last() =~= chapters@.take(c as int));
            assert(taken.last() == chapters@[c as int]);
            assert(rows@ =~= start + book_verse_rows(translation_id, book_id, taken));
        }
        c = c + 1;
    }
    assert(chapters@.take(chapters.len() as int) =~= chapters@);
}

/// The rows a translation's books turn into: the books-table rows when this
/// translation brings the shared book structure (none otherwise), and every
/// verse of every chapter of every book, in order, numbered from 1.
pub fn seed_rows(translation_id: i64, books: &Vec<RawBook>, seeds_books: bool) -> (r: (
    Vec<Book>,
    Vec<VerseRow>,
))
    requires
        raw_books_fit(books@),
    ensures
        r.0@ == (if seeds_books {
            book_rows(books@)
        } else {
            Seq::empty()
        }),
        r.1@ == verse_rows(translation_id, books@),
        seeds_books ==> r.0@.len() == books@.len() && forall|k: int|
            0 <= k < books@.len() ==> (#[trigger] r.0@[k]).id == k + 1 && r.0@[k].name == books@[k].name
                && r.0@[k].testament == books@[k].testament && r.0@[k].chapter_count
                == books@[k].chapters@.len(),
        !seeds_books ==> r.0@.len() == 0,
        r.1@.len() == total_verses(books@),
        forall|t: int|
            0 <= t < r.1@.len() ==> verse_row_in_place(translation_id, books@, #[trigger] r.1@[t]),
        forall|t: int, u: int|
            0 <= t < u < r.1@.len() ==> reads_before(#[trigger] r.1@[t], #[trigger] r.1@[u]),
{
    proof {
        lemma_book_rows_carry_each_book(books@);
        lemma_verse_rows_cover_every_verse(translation_id, books@);
    }
    let mut book_table: Vec<Book> = Vec::new();
    let mut rows: Vec<VerseRow> = Vec::new();
    let mut k: usize = 0;
    while k < books.len()
        invariant
            k <= books.len(),
            raw_books_fit(books@),
            book_table@ == (if seeds_books {
                book_rows(books@.take(k as int))
            } else {
                Seq::empty()
            }),
            rows@ == verse_rows(translation_id, books@.take(k as int)),
        decreases books.len() - k,
    {
        let book = &books[k];
        let book_id = (k + 1) as i64;
        if seeds_books {
            book_table.push(
                Book {
                    id: book_id,
                    name: book.name.clone(),
                    testament: book.testament.clone(),
                    chapter_count: book.chapters.len() as i64,
                },
            );
        }
        assert(book.chapters@.len() < i64::MAX);
        push_book_rows(&mut rows, translation_id, book_id, &book.chapters);
        proof {
            let taken = books@.take(k + 1);
            assert(taken.drop_last() =~= books@.take(k as int));
            assert(taken.last() == books@[k as int]);
            if seeds_books {
                assert(book_table@ =~= book_rows(taken));
            }
        }
        k = k + 1;
    }
    assert(books@.take(books.len() as int) =~= books@);
    (book_table, rows)
}

} // verus!
