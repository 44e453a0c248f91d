use vstd::prelude::*;

use crate::db::models::{Book, CrossReference, Translation, Verse};
use crate::domain::bible::{
    find_book, first_book_index, has_book, lemma_neighbors_are_known_books, next_chapter,
    previous_chapter, spec_next_chapter, spec_previous_chapter, ChapterRef,
};
use crate::text::{decimal_text, lemma_decimal_text_reads_back, push_decimal, reads_as_integer};

verus! {

/// A book as the book list shows it.
#[derive(Debug, Clone)]
pub struct BookDto {
    pub id: i64,
    pub name: String,
    pub chapter_count: i64,
}

impl From<&Book> for BookDto {
    fn from(b: &Book) -> (r: Self) {
        BookDto { id: b.id, name: b.name.clone(), chapter_count: b.chapter_count }
    }
}

impl vstd::std_specs::convert::FromSpecImpl<&Book> for BookDto {
    open spec fn obeys_from_spec() -> bool {
        true
    }

    open spec fn from_spec(b: &Book) -> BookDto {
        book_dto_of(*b)
    }
}

/// A translation as the translation picker shows it.
#[derive(Debug, Clone)]
pub struct TranslationDto {
    pub code: String,
    pub name: String,
}

impl From<&Translation> for TranslationDto {
    fn from(t: &Translation) -> (r: Self) {
        TranslationDto { code: t.code.clone(), name: t.name.clone() }
    }
}

impl vstd::std_specs::convert::FromSpecImpl<&Translation> for TranslationDto {
    open spec fn obeys_from_spec() -> bool {
        true
    }

    open spec fn from_spec(t: &Translation) -> TranslationDto {
        translation_dto_of(*t)
    }
}

/// Initial state of the home screen.
#[derive(Debug, Clone)]
pub struct HomeDto {
    pub ot_books: Vec<BookDto>,
    pub nt_books: Vec<BookDto>,
    pub translations: Vec<TranslationDto>,
    pub current_translation_code: String,
    pub current_book_id: i64,
    pub current_chapter: i64,
}

/// One cell of a book's chapter grid.
#[derive(Debug, Clone, Copy)]
pub struct ChapterEntryDto {
    pub number: i64,
    pub is_active: bool,
}

/// The chapter grid of one book.
#[derive(Debug, Clone)]
pub struct ChaptersDto {
    pub book_id: i64,
    pub book_name: String,
    pub chapters: Vec<ChapterEntryDto>,
}

/// A cross-reference as shown beside a verse, with its citation text.
#[derive(Debug, Clone)]
pub struct XrefDto {
    pub book_id: i64,
    pub chapter: i64,
    pub verse: i64,
    pub end_verse: Option<i64>,
    pub citation: String,
}

/// A verse of the chapter being read, with its cross-references.
#[derive(Debug, Clone)]
pub struct VerseDto {
    pub number: i64,
    pub text: String,
    pub xrefs: Vec<XrefDto>,
}

/// A verse shown without cross-references.
#[derive(Debug, Clone)]
pub struct SimpleVerseDto {
    pub number: i64,
    pub text: String,
}

/// A neighboring chapter shown in full, at reduced opacity, beside the one
/// being read. Only its heading is a clickable jump-to-here control — the
/// verse text itself stays plain, selectable text.
#[derive(Debug, Clone)]
pub struct ChapterSideDto {
    pub book_id: i64,
    pub chapter: i64,
    pub book_name: String,
    pub verses: Vec<SimpleVerseDto>,
}

/// The reading pane: one chapter with its cross-references, and the full
/// text of the chapters before and after it.
#[derive(Debug, Clone)]
pub struct ReadingPaneDto {
    pub current_book_id: i64,
    pub current_chapter: i64,
    pub current_book_name: String,
    pub current_verses: Vec<VerseDto>,
    pub prev: Option<ChapterSideDto>,
    pub next: Option<ChapterSideDto>,
    pub has_chapter_xrefs: bool,
}

pub open spec fn book_dto_of(b: Book) -> BookDto {
    BookDto { id: b.id, name: b.name, chapter_count: b.chapter_count }
}

pub open spec fn translation_dto_of(t: Translation) -> TranslationDto {
    TranslationDto { code: t.code, name: t.name }
}

/// The name of the first book with id `id`, if there is one.
pub open spec fn spec_book_name(books: Seq<Book>, id: i64) -> Option<Seq<char>> {
    if has_book(books, id) {
        Some(books[first_book_index(books, id)].name@)
    } else {
        None
    }
}

/// The name looked up for a book id is the name of the first book with that
/// id, and there is none exactly when no book has that id.
pub proof fn lemma_book_name_is_that_books(books: Seq<Book>, id: i64)
    ensures
        spec_book_name(books, id) is None <==> forall|j: int| 0 <= j < books.len() ==> #[trigger] books[j].id != id,
        spec_book_name(books, id) matches Some(n) ==> exists|i: int|
            0 <= i < books.len() && #[trigger] books[i].id == id && (forall|j: int|
                0 <= j < i ==> books[j].id != id) && n == books[i].name@,
{
    if has_book(books, id) {
        let w = choose|w: int| 0 <= w < books.len() && #[trigger] books[w].id == id;
        crate::domain::bible::lemma_first_book_index_is_first(books, id, w);
        let f = first_book_index(books, id);
        assert(books[f].id == id);
    } else {
        assert forall|j: int| 0 <= j < books.len() implies #[trigger] books[j].id != id by {
            if books[j].id == id {
                assert(has_book(books, id));
            }
        }
    }
}

/// The name of the book with the given id.
pub fn book_name(books: &[Book], book_id: i64) -> (r: Option<String>)
    ensures
        match r {
            Some(n) => spec_book_name(books@, book_id) == Some(n@),
            None => spec_book_name(books@, book_id) is None,
        },
        r matches Some(n) ==> exists|i: int|
            0 <= i < books@.len() && #[trigger] books@[i].id == book_id && (forall|j: int|
                0 <= j < i ==> books@[j].id != book_id) && n == books@[i].name,
        r is None ==> forall|j: int| 0 <= j < books@.len() ==> #[trigger] books@[j].id != book_id,
{
    match find_book(books, book_id) {
        Some(i) => Some(books[i].name.clone()),
        None => None,
    }
}

/// A passage cited as "Name C:V", or "Name C:V-E" for a range whose end
/// differs from its start; the name is "?" for an unknown book.
pub open spec fn citation_text(
    name: Option<Seq<char>>,
    chapter: i64,
    verse: i64,
    end_verse: Option<i64>,
) -> Seq<char> {
    let n = match name {
        Some(n) => n,
        None => seq!['?'],
    };
    let base = n + seq![' '] + decimal_text(chapter as int) + seq![':'] + decimal_text(
        verse as int,
    );
    match end_verse {
        Some(e) => if e != verse {
            base + seq!['-'] + decimal_text(e as int)
        } else {
            base
        },
        None => base,
    }
}

/// The position of the first `ch` in `s` at or after `from`, or the length
/// of `s` when there is none.
pub open spec fn index_of_from(s: Seq<char>, ch: char, from: int) -> int
    decreases s.len() - from,
{
    if from < 0 || from >= s.len() {
        s.len() as int
    } else if s[from] == ch {
        from
    } else {
        index_of_from(s, ch, from + 1)
    }
}

/// `c` reads back as a citation of `chapter:verse` (or `chapter:verse-end`
/// when the range ends at another verse) in the book named `name` ("?" for
/// an unknown book): the name and a space; up to the first ':' after that,
/// text that reads as the chapter number; after it, text that reads as the
/// verse number, or, when the range ends at another verse, text that reads
/// as the verse number up to the first '-' that does not start it, and
/// text that reads as the end verse after that '-'.
pub open spec fn reads_as_citation(
    c: Seq<char>,
    name: Option<Seq<char>>,
    chapter: i64,
    verse: i64,
    end_verse: Option<i64>,
) -> bool {
    let n = match name {
        Some(n) => n,
        None => seq!['?'],
    };
    let rest = c.skip(n.len() as int + 1);
    let k = index_of_from(rest, ':', 0);
    let tail = rest.skip(k + 1);
    let m = index_of_from(tail, '-', 1);
    let ranged = match end_verse {
        Some(e) => e != verse,
        None => false,
    };
    &&& c.len() > n.len()
    &&& c.take(n.len() as int) == n
    &&& c[n.len() as int] == ' '
    &&& k < rest.len()
    &&& reads_as_integer(rest.take(k), chapter as int)
    &&& if ranged {
        &&& m < tail.len()
        &&& reads_as_integer(tail.take(m), verse as int)
        &&& reads_as_integer(tail.skip(m + 1), end_verse->0 as int)
    } else {
        reads_as_integer(tail, verse as int)
    }
}

proof fn lemma_index_of_from(s: Seq<char>, ch: char, from: int, p: int)
    requires
        0 <= from <= p < s.len(),
        s[p] == ch,
        forall|t: int| from <= t < p ==> s[t] != ch,
    ensures
        index_of_from(s, ch, from) == p,
    decreases p - from,
{
    if from < p {
        lemma_index_of_from(s, ch, from + 1, p);
    }
}

/// A citation reads back as what it cites: for every book name, chapter,
/// verse and range end, the citation text is the name (or "?"), a space,
/// the chapter number, ':' and the verse number, then '-' and the end verse
/// exactly when the range ends at another verse, each number read back
/// from its decimal text.
#[verifier::spinoff_prover]
pub proof fn lemma_citation_reads_back(
    name: Option<Seq<char>>,
    chapter: i64,
    verse: i64,
    end_verse: Option<i64>,
)
    ensures
        reads_as_citation(citation_text(name, chapter, verse, end_verse), name, chapter, verse, end_verse),
{
    let n = match name {
        Some(n) => n,
        None => seq!['?'],
    };
    let ranged = match end_verse {
        Some(e) => e != verse,
        None => false,
    };
    let d1 = decimal_text(chapter as int);
    let d2 = decimal_text(verse as int);
    lemma_decimal_text_reads_back(chapter as int);
    lemma_decimal_text_reads_back(verse as int);
    let c = citation_text(name, chapter, verse, end_verse);
    let k = d1.len() as int;
    let tail = if ranged {
        let d3 = decimal_text(end_verse->0 as int);
        lemma_decimal_text_reads_back(end_verse->0 as int);
        let tail = d2 + seq!['-'] + d3;
        let m = d2.len() as int;
        assert(tail.take(m) =~= d2);
        assert(tail.skip(m + 1) =~= d3);
        assert forall|t: int| 1 <= t < m implies tail[t] != '-' by {
            assert(tail[t] == d2[t]);
        }
        lemma_index_of_from(tail, '-', 1, m);
        tail
    } else {
        d2
    };
    assert(c =~= n + seq![' '] + d1 + seq![':'] + tail);
    let rest = c.skip(n.len() as int + 1);
    assert(rest =~= d1 + seq![':'] + tail);
    assert forall|t: int| 0 <= t < k implies rest[t] != ':' by {
        assert(rest[t] == d1[t]);
    }
    lemma_index_of_from(rest, ':', 0, k);
    assert(rest.take(k) =~= d1);
    assert(rest.skip(k + 1) =~= tail);
    assert(c.take(n.len() as int) =~= n);
    assert(c[n.len() as int] == ' ');
}

/// Render a cross-reference's target passage as a human-readable citation,
/// e.g. "Romans 8:28" or "Romans 8:28-30" for a verse range.
pub fn build_citation(
    books: &[Book],
    ref_book_id: i64,
    ref_chapter: i64,
    ref_verse: i64,
    ref_end_verse: Option<i64>,
) -> (r: String)
    ensures
        r@ == citation_text(spec_book_name(books@, ref_book_id), ref_chapter, ref_verse, ref_end_verse),
        reads_as_citation(
            r@,
            spec_book_name(books@, ref_book_id),
            ref_chapter,
            ref_verse,
            ref_end_verse,
        ),
{
    proof {
        lemma_citation_reads_back(spec_book_name(books@, ref_book_id), ref_chapter, ref_verse, ref_end_verse);
    }
    let mut s = match book_name(books, ref_book_id) {
        Some(n) => n,
        None => {
            proof { reveal_strlit("?"); }
            "?".to_owned()
        },
    };
    let ghost name = s@;
    proof { reveal_strlit(" "); reveal_strlit(":"); }
    s.append(" ");
    push_decimal(&mut s, ref_chapter);
    s.append(":");
    push_decimal(&mut s, ref_verse);
    let ghost base = s@;
    assert(base =~= name + seq![' '] + decimal_text(ref_chapter as int) + seq![':'] + decimal_text(
        ref_verse as int,
    ));
    match ref_end_verse {
        Some(end) => {
            if end != ref_verse {
                proof { reveal_strlit("-"); }
                s.append("-");
                push_decimal(&mut s, end);
                assert(s@ =~= base + seq!['-'] + decimal_text(end as int));
            }
        },
        None => {},
    }
    s
}

/// Whether some translation has the code `code`.
pub open spec fn has_translation_code(translations: Seq<Translation>, code: Seq<char>) -> bool {
    exists|i: int| 0 <= i < translations.len() && #[trigger] translations[i].code@ == code
}

/// `translations[i]` is the first translation with code `code`.
pub open spec fn is_first_with_code(translations: Seq<Translation>, code: Seq<char>, i: int) -> bool {
    &&& 0 <= i < translations.len()
    &&& translations[i].code@ == code
    &&& forall|j: int| 0 <= j < i ==> #[trigger] translations[j].code@ != code
}

/// A translation code requested by its text, if any.
pub open spec fn code_view(code: Option<&str>) -> Option<Seq<char>> {
    match code {
        Some(c) => Some(c@),
        None => None,
    }
}

/// The id of the first translation with the requested code; otherwise the
/// first translation's id (the default); otherwise 1.
pub open spec fn spec_resolve_translation(translations: Seq<Translation>, code: Option<Seq<char>>) -> i64 {
    let fallback = if translations.len() > 0 {
        translations[0].id
    } else {
        1
    };
    match code {
        Some(c) => if has_translation_code(translations, c) {
            translations[choose|i: int| is_first_with_code(translations, c, i)].id
        } else {
            fallback
        },
        None => fallback,
    }
}

proof fn lemma_first_with_code_unique(translations: Seq<Translation>, code: Seq<char>, i: int, k: int)
    requires
        is_first_with_code(translations, code, i),
        is_first_with_code(translations, code, k),
    ensures
        i == k,
{
    if i < k {
        assert(translations[i].code@ != code);
    } else if k < i {
        assert(translations[k].code@ != code);
    }
}

/// A requested code resolves to the id of the first translation with that
/// code; a code no translation has, like no code at all, resolves to the
/// first translation's id, or 1 when there is none.
pub proof fn lemma_resolve_translation_picks_the_code(translations: Seq<Translation>, code: Seq<char>)
    ensures
        (exists|i: int| 0 <= i < translations.len() && #[trigger] translations[i].code@ == code)
            ==> exists|i: int|
            0 <= i < translations.len() && #[trigger] translations[i].code@ == code && (forall|j: int|
                0 <= j < i ==> translations[j].code@ != code) && spec_resolve_translation(
                translations,
                Some(code),
            ) == translations[i].id,
        !(exists|i: int| 0 <= i < translations.len() && #[trigger] translations[i].code@ == code)
            ==> spec_resolve_translation(translations, Some(code)) == spec_resolve_translation(
            translations,
            None,
        ),
        spec_resolve_translation(translations, None) == (if translations.len() > 0 {
            translations[0].id
        } else {
            1
        }),
{
    if exists|i: int| 0 <= i < translations.len() && #[trigger] translations[i].code@ == code {
        let w = choose|i: int| 0 <= i < translations.len() && #[trigger] translations[i].code@ == code;
        let f = lemma_first_with_code_from(translations, code, w);
        assert(has_translation_code(translations, code));
        let k = choose|i: int| is_first_with_code(translations, code, i);
        lemma_first_with_code_unique(translations, code, f, k);
        assert(translations[f].code@ == code);
    }
}

proof fn lemma_first_with_code_from(translations: Seq<Translation>, code: Seq<char>, w: int) -> (f: int)
    requires
        0 <= w < translations.len(),
        translations[w].code@ == code,
    ensures
        is_first_with_code(translations, code, f),
    decreases w,
{
    if exists|j: int| 0 <= j < w && #[trigger] translations[j].code@ == code {
        let j = choose|j: int| 0 <= j < w && #[trigger] translations[j].code@ == code;
        lemma_first_with_code_from(translations, code, j)
    } else {
        w
    }
}

/// Resolve a requested translation code to a translation id, falling back
/// to the first bundled translation (the default) when the code is absent
/// or doesn't match anything we have.
pub fn resolve_translation(translations: &[Translation], code: Option<&str>) -> (r: i64)
    ensures
        r == spec_resolve_translation(translations@, code_view(code)),
        code is Some && (exists|i: int|
            0 <= i < translations@.len() && #[trigger] translations@[i].code@ == code->0@) ==> exists|
            i: int,
        |
            0 <= i < translations@.len() && #[trigger] translations@[i].code@ == code->0@ && (forall|
                j: int,
            |
                0 <= j < i ==> translations@[j].code@ != code->0@) && r == translations@[i].id,
        (code is None || !(exists|i: int|
            0 <= i < translations@.len() && #[trigger] translations@[i].code@ == code->0@)) ==> r == (
        if translations@.len() > 0 {
            translations@[0].id
        } else {
            1
        }),
{
    proof {
        if let Some(c) = code {
            lemma_resolve_translation_picks_the_code(translations@, c@);
        }
    }
    if let Some(c) = code {
        let wanted = c.to_owned();
        let mut j: usize = 0;
        while j < translations.len()
            invariant
                j <= translations.len(),
                wanted@ == c@,
                code_view(code) == Some(c@),
                forall|t: int| 0 <= t < j ==> #[trigger] translations@[t].code@ != c@,
            decreases translations.len() - j,
        {
            if translations[j].code == wanted {
                assert(is_first_with_code(translations@, c@, j as int));
                assert(has_translation_code(translations@, c@));
                proof {
                    let k = choose|i: int| is_first_with_code(translations@, c@, i);
                    lemma_first_with_code_unique(translations@, c@, j as int, k);
                }
                return translations[j].id;
            }
            j = j + 1;
        }
    }
    if translations.len() > 0 {
        translations[0].id
    } else {
        1
    }
}

/// `chapters` is the grid 1..=count (empty when count < 1), where exactly
/// the chapter equal to `active` is marked active.
pub open spec fn chapter_grid(chapters: Seq<ChapterEntryDto>, count: i64, active: Option<i64>) -> bool {
    &&& chapters.len() == (if count > 0 {
        count as int
    } else {
        0
    })
    &&& forall|k: int|
        0 <= k < chapters.len() ==> (#[trigger] chapters[k]).number == k + 1 && chapters[k].is_active
            == (active == Some((k + 1) as i64))
}

/// A chapter grid marks at most one chapter active, and marks one exactly
/// when the requested chapter is one of the book's chapters.
pub proof fn lemma_chapter_grid_single_active(chapters: Seq<ChapterEntryDto>, count: i64, active: Option<i64>)
    requires
        chapter_grid(chapters, count, active),
    ensures
        forall|k: int, l: int|
            0 <= k < chapters.len() && 0 <= l < chapters.len() && (#[trigger] chapters[k]).is_active
                && (#[trigger] chapters[l]).is_active ==> k == l,
        (exists|k: int| 0 <= k < chapters.len() && (#[trigger] chapters[k]).is_active) <==> (
        active matches Some(a) && 1 <= a <= count),
{
    if let Some(a) = active {
        if 1 <= a <= count {
            assert(chapters[a - 1].is_active);
        }
    }
}

/// Build the chapter grid for one book, optionally marking one chapter
/// active; none for an unknown book.
pub fn build_chapters_dto(books: &[Book], book_id: i64, active: Option<i64>) -> (r: Option<ChaptersDto>)
    ensures
        match r {
            Some(d) => {
                let b = books@[first_book_index(books@, book_id)];
                &&& has_book(books@, book_id)
                &&& d.book_id == book_id
                &&& d.book_name == b.name
                &&& chapter_grid(d.chapters@, b.chapter_count, active)
            },
            None => !has_book(books@, book_id),
        },
        r is None <==> forall|j: int| 0 <= j < books@.len() ==> #[trigger] books@[j].id != book_id,
        r matches Some(d) ==> exists|i: int|
            0 <= i < books@.len() && #[trigger] books@[i].id == book_id && (forall|j: int|
                0 <= j < i ==> books@[j].id != book_id) && d.book_id == book_id && d.book_name
                == books@[i].name && d.chapters@.len() == (if books@[i].chapter_count > 0 {
                books@[i].chapter_count as int
            } else {
                0
            }) && forall|k: int|
                0 <= k < d.chapters@.len() ==> (#[trigger] d.chapters@[k]).number == k + 1
                    && d.chapters@[k].is_active == (active == Some((k + 1) as i64)),
{
    proof {
        lemma_book_name_is_that_books(books@, book_id);
    }
    let i = match find_book(books, book_id) {
        Some(i) => i,
        None => return None,
    };
    let count = books[i].chapter_count;
    let mut chapters: Vec<ChapterEntryDto> = Vec::new();
    let mut k: i64 = 0;
    while k < count
        invariant
            0 <= k,
            count > 0 ==> k <= count,
            count <= 0 ==> k == 0,
            chapters@.len() == k,
            forall|t: int|
                0 <= t < k ==> (#[trigger] chapters@[t]).number == t + 1 && chapters@[t].is_active
                    == (active == Some((t + 1) as i64)),
        decreases count - k,
    {
        let n = k + 1;
        let is_active = match active {
            Some(a) => a == n,
            None => false,
        };
        chapters.push(ChapterEntryDto { number: n, is_active });
        k = n;
    }
    Some(ChaptersDto { book_id, book_name: books[i].name.clone(), chapters })
}

/// `out` shows `verses` one for one, in order: number and text.
pub open spec fn simple_verses_of(out: Seq<SimpleVerseDto>, verses: Seq<Verse>) -> bool {
    &&& out.len() == verses.len()
    &&& forall|k: int|
        0 <= k < out.len() ==> (#[trigger] out[k]).number == verses[k].verse && out[k].text
            == verses[k].text
}

/// Verses as shown without cross-references.
pub fn simple_verses(verses: &[Verse]) -> (r: Vec<SimpleVerseDto>)
    ensures
        simple_verses_of(r@, verses@),
        r@.len() == verses@.len(),
        forall|k: int|
            0 <= k < r@.len() ==> (#[trigger] r@[k]).number == verses@[k].verse && r@[k].text
                == verses@[k].text,
{
    let mut out: Vec<SimpleVerseDto> = Vec::new();
    let mut k: usize = 0;
    while k < verses.len()
        invariant
            k <= verses.len(),
            simple_verses_of(out@, verses@.take(k as int)),
        decreases verses.len() - k,
    {
        out.push(SimpleVerseDto { number: verses[k].verse, text: verses[k].text.clone() });
        k = k + 1;
    }
    assert(verses@.take(verses.len() as int) =~= verses@);
    out
}

/// Build the full text of a neighboring chapter, to render at reduced
/// opacity beside the one being read; none for an unknown book.
pub fn build_side(books: &[Book], at: ChapterRef, verses: &[Verse]) -> (r: Option<ChapterSideDto>)
    ensures
        match r {
            Some(s) => side_of(books@, at, s, verses@),
            None => !has_book(books@, at.book_id),
        },
        r is None <==> forall|j: int| 0 <= j < books@.len() ==> #[trigger] books@[j].id != at.book_id,
        r matches Some(s) ==> s.book_id == at.book_id && s.chapter == at.chapter && spec_book_name(
            books@,
            at.book_id,
        ) == Some(s.book_name@) && s.verses@.len() == verses@.len() && forall|k: int|
            0 <= k < s.verses@.len() ==> (#[trigger] s.verses@[k]).number == verses@[k].verse
                && s.verses@[k].text == verses@[k].text,
{
    proof {
        lemma_book_name_is_that_books(books@, at.book_id);
    }
    let i = match find_book(books, at.book_id) {
        Some(i) => i,
        None => return None,
    };
    Some(
        ChapterSideDto {
            book_id: at.book_id,
            chapter: at.chapter,
            book_name: books[i].name.clone(),
            verses: simple_verses(verses),
        },
    )
}

/// `x` shows the cross-reference `r`, with its citation.
pub open spec fn xref_of(books: Seq<Book>, x: XrefDto, r: CrossReference) -> bool {
    &&& x.book_id == r.ref_book_id
    &&& x.chapter == r.ref_chapter
    &&& x.verse == r.ref_verse
    &&& x.end_verse == r.ref_end_verse
    &&& x.citation@ == citation_text(
        spec_book_name(books, r.ref_book_id),
        r.ref_chapter,
        r.ref_verse,
        r.ref_end_verse,
    )
}

/// `xs` shows `refs` one for one, in order.
pub open spec fn xrefs_of(books: Seq<Book>, xs: Seq<XrefDto>, refs: Seq<CrossReference>) -> bool {
    &&& xs.len() == refs.len()
    &&& forall|k: int| 0 <= k < xs.len() ==> xref_of(books, #[trigger] xs[k], refs[k])
}

/// The cross-references from verse number `verse`, in their given order.
pub open spec fn refs_of_verse(refs: Seq<CrossReference>, verse: i64) -> Seq<CrossReference> {
    refs.filter(|r: CrossReference| r.verse == verse)
}

/// The cross-references shown beside `verses[i]`: all those from its verse
/// number, in their given order, unless an earlier verse carries the same
/// number (which has taken them).
pub open spec fn verse_xrefs(refs: Seq<CrossReference>, verses: Seq<Verse>, i: int) -> Seq<CrossReference> {
    if exists|j: int| 0 <= j < i && #[trigger] verses[j].verse == verses[i].verse {
        Seq::empty()
    } else {
        refs_of_verse(refs, verses[i].verse)
    }
}

/// Beside the first verse that carries a verse number stand every
/// cross-reference from that number and no other; a later verse with the
/// same number shows none.
pub proof fn lemma_every_cross_reference_is_shown(refs: Seq<CrossReference>, verses: Seq<Verse>, i: int)
    requires
        0 <= i < verses.len(),
    ensures
        forall|k: int|
            0 <= k < verse_xrefs(refs, verses, i).len() ==> (#[trigger] verse_xrefs(
                refs,
                verses,
                i,
            )[k]).verse == verses[i].verse,
        !(exists|j: int| 0 <= j < i && #[trigger] verses[j].verse == verses[i].verse)
            ==> forall|k: int|
            0 <= k < refs.len() && #[trigger] refs[k].verse == verses[i].verse ==> verse_xrefs(
                refs,
                verses,
                i,
            ).contains(refs[k]),
        (exists|j: int| 0 <= j < i && #[trigger] verses[j].verse == verses[i].verse)
            ==> verse_xrefs(refs, verses, i).len() == 0,
{
    let v = verses[i].verse;
    let pred = |r: CrossReference| r.verse == v;
    let shown = verse_xrefs(refs, verses, i);
    if !(exists|j: int| 0 <= j < i && #[trigger] verses[j].verse == v) {
        assert(shown == refs.filter(pred));
        assert forall|k: int| 0 <= k < shown.len() implies (#[trigger] shown[k]).verse == v by {
            refs.lemma_filter_pred(pred, k);
        }
        assert forall|k: int| 0 <= k < refs.len() && #[trigger] refs[k].verse == v implies shown.contains(
            refs[k],
        ) by {
            refs.lemma_filter_contains(pred, k);
        }
    }
}

/// `out` shows the verse `v` with the cross-references `refs`.
pub open spec fn verse_of(books: Seq<Book>, out: VerseDto, v: Verse, refs: Seq<CrossReference>) -> bool {
    &&& out.number == v.verse
    &&& out.text == v.text
    &&& xrefs_of(books, out.xrefs@, refs)
}

/// Every shown cross-reference's citation reads back as what it cites.
proof fn lemma_xrefs_read_back(books: Seq<Book>, xs: Seq<XrefDto>, refs: Seq<CrossReference>)
    requires
        xrefs_of(books, xs, refs),
    ensures
        forall|k: int|
            0 <= k < xs.len() ==> reads_as_citation(
                (#[trigger] xs[k]).citation@,
                spec_book_name(books, refs[k].ref_book_id),
                refs[k].ref_chapter,
                refs[k].ref_verse,
                refs[k].ref_end_verse,
            ),
{
    assert forall|k: int| 0 <= k < xs.len() implies reads_as_citation(
        (#[trigger] xs[k]).citation@,
        spec_book_name(books, refs[k].ref_book_id),
        refs[k].ref_chapter,
        refs[k].ref_verse,
        refs[k].ref_end_verse,
    ) by {
        assert(xref_of(books, xs[k], refs[k]));
        lemma_citation_reads_back(
            spec_book_name(books, refs[k].ref_book_id),
            refs[k].ref_chapter,
            refs[k].ref_verse,
            refs[k].ref_end_verse,
        );
    }
}

fn xrefs_for_verse(books: &[Book], cross_refs: &[CrossReference], verse: i64) -> (r: Vec<XrefDto>)
    ensures
        xrefs_of(books@, r@, refs_of_verse(cross_refs@, verse)),
{
    let mut out: Vec<XrefDto> = Vec::new();
    let mut j: usize = 0;
    while j < cross_refs.len()
        invariant
            j <= cross_refs.len(),
            xrefs_of(books@, out@, refs_of_verse(cross_refs@.take(j as int), verse)),
        decreases cross_refs.len() - j,
    {
        let r = cross_refs[j];
        proof {
            reveal(Seq::filter);
            assert(cross_refs@.take(j + 1).drop_last() =~= cross_refs@.take(j as int));
        }
        if r.verse == verse {
            let citation = build_citation(
                books,
                r.ref_book_id,
                r.ref_chapter,
                r.ref_verse,
                r.ref_end_verse,
            );
            out.push(
                XrefDto {
                    book_id: r.ref_book_id,
                    chapter: r.ref_chapter,
                    verse: r.ref_verse,
                    end_verse: r.ref_end_verse,
                    citation,
                },
            );
        }
        j = j + 1;
    }
    assert(cross_refs@.take(cross_refs.len() as int) =~= cross_refs@);
    out
}

/// `side` shows chapter `at` of a book in the list, with `verses` as its
/// text.
pub open spec fn side_of(books: Seq<Book>, at: ChapterRef, side: ChapterSideDto, verses: Seq<Verse>) -> bool {
    &&& has_book(books, at.book_id)
    &&& side.book_id == at.book_id
    &&& side.chapter == at.chapter
    &&& side.book_name == books[first_book_index(books, at.book_id)].name
    &&& simple_verses_of(side.verses@, verses)
}

/// `side` is the column for the neighboring chapter `neighbor` (the chapter
/// before or after the one being read), with `verses` as its text: present
/// exactly when that chapter exists.
pub open spec fn neighbor_column(
    books: Seq<Book>,
    neighbor: Option<ChapterRef>,
    side: Option<ChapterSideDto>,
    verses: Seq<Verse>,
) -> bool {
    match (neighbor, side) {
        (Some(at), Some(s)) => side_of(books, at, s, verses),
        (None, None) => true,
        _ => false,
    }
}

/// Build the reading pane for one chapter of one translation: the chapter
/// itself, each verse with the cross-references from it, whether the
/// chapter has any cross-reference at all, and, shown in full beside it,
/// the chapter immediately before and after it (crossing book boundaries
/// as needed), whose verses are `prev_verses` and `next_verses` (ignored
/// when there is no such chapter); none for an unknown book.
pub fn build_reading_pane_dto(
    books: &[Book],
    current: ChapterRef,
    prev_verses: &[Verse],
    next_verses: &[Verse],
    cross_refs: &[CrossReference],
    current_verses: &[Verse],
) -> (r: Option<ReadingPaneDto>)
    ensures
        match r {
            Some(p) => {
                &&& has_book(books@, current.book_id)
                &&& p.current_book_id == current.book_id
                &&& p.current_chapter == current.chapter
                &&& p.current_book_name == books@[first_book_index(books@, current.book_id)].name
                &&& neighbor_column(books@, spec_previous_chapter(books@, current), p.prev, prev_verses@)
                &&& neighbor_column(books@, spec_next_chapter(books@, current), p.next, next_verses@)
                &&& p.has_chapter_xrefs == (cross_refs@.len() > 0)
                &&& p.current_verses@.len() == current_verses@.len()
                &&& forall|i: int|
                    0 <= i < current_verses@.len() ==> verse_of(
                        books@,
                        #[trigger] p.current_verses@[i],
                        current_verses@[i],
                        verse_xrefs(cross_refs@, current_verses@, i),
                    )
                &&& forall|i: int|
                    0 <= i < current_verses@.len() ==> {
                        let shown = (#[trigger] p.current_verses@[i]).xrefs@;
                        let v = current_verses@[i].verse;
                        let from_verse = cross_refs@.filter(|r: CrossReference| r.verse == v);
                        &&& p.current_verses@[i].number == v
                        &&& p.current_verses@[i].text == current_verses@[i].text
                        &&& (exists|j: int| 0 <= j < i && #[trigger] current_verses@[j].verse == v)
                            ==> shown.len() == 0
                        &&& !(exists|j: int| 0 <= j < i && #[trigger] current_verses@[j].verse == v)
                            ==> shown.len() == from_verse.len() && forall|k: int|
                            0 <= k < shown.len() ==> (#[trigger] shown[k]).book_id
                                == from_verse[k].ref_book_id && shown[k].chapter
                                == from_verse[k].ref_chapter && shown[k].verse == from_verse[k].ref_verse
                                && shown[k].end_verse == from_verse[k].ref_end_verse && reads_as_citation(
                                shown[k].citation@,
                                spec_book_name(books@, from_verse[k].ref_book_id),
                                from_verse[k].ref_chapter,
                                from_verse[k].ref_verse,
                                from_verse[k].ref_end_verse,
                            )
                    }
            },
            None => !has_book(books@, current.book_id),
        },
        r is None <==> forall|j: int| 0 <= j < books@.len() ==> #[trigger] books@[j].id != current.book_id,
        r matches Some(p) ==> spec_book_name(books@, current.book_id) == Some(p.current_book_name@),
        r matches Some(p) ==> (p.prev is Some <==> spec_previous_chapter(books@, current) is Some),
        r matches Some(p) ==> (p.prev matches Some(s) ==> spec_previous_chapter(books@, current) == Some(
            ChapterRef { book_id: s.book_id, chapter: s.chapter },
        ) && spec_book_name(books@, s.book_id) == Some(s.book_name@) && s.verses@.len()
            == prev_verses@.len() && forall|k: int|
            0 <= k < s.verses@.len() ==> (#[trigger] s.verses@[k]).number == prev_verses@[k].verse
                && s.verses@[k].text == prev_verses@[k].text),
        r matches Some(p) ==> (p.next is Some <==> spec_next_chapter(books@, current) is Some),
        r matches Some(p) ==> (p.next matches Some(s) ==> spec_next_chapter(books@, current) == Some(
            ChapterRef { book_id: s.book_id, chapter: s.chapter },
        ) && spec_book_name(books@, s.book_id) == Some(s.book_name@) && s.verses@.len()
            == next_verses@.len() && forall|k: int|
            0 <= k < s.verses@.len() ==> (#[trigger] s.verses@[k]).number == next_verses@[k].verse
                && s.verses@[k].text == next_verses@[k].text),
{
    proof {
        lemma_book_name_is_that_books(books@, current.book_id);
        if let Some(r) = spec_previous_chapter(books@, current) {
            lemma_book_name_is_that_books(books@, r.book_id);
        }
        if let Some(r) = spec_next_chapter(books@, current) {
            lemma_book_name_is_that_books(books@, r.book_id);
        }
    }
    let b = match find_book(books, current.book_id) {
        Some(b) => b,
        None => return None,
    };
    proof {
        lemma_neighbors_are_known_books(books@, current);
    }
    let prev = match previous_chapter(books, current) {
        Some(at) => build_side(books, at, prev_verses),
        None => None,
    };
    let next = match next_chapter(books, current) {
        Some(at) => build_side(books, at, next_verses),
        None => None,
    };
    let mut out: Vec<VerseDto> = Vec::new();
    let mut i: usize = 0;
    while i < current_verses.len()
        invariant
            i <= current_verses.len(),
            out@.len() == i,
            forall|t: int|
                0 <= t < i ==> verse_of(
                    books@,
                    #[trigger] out@[t],
                    current_verses@[t],
                    verse_xrefs(cross_refs@, current_verses@, t),
                ),
        decreases current_verses.len() - i,
    {
        let v = current_verses[i].verse;
        let mut taken = false;
        let mut j: usize = 0;
        while j < i
            invariant
                j <= i < current_verses.len(),
                v == current_verses@[i as int].verse,
                taken == exists|t: int| 0 <= t < j && #[trigger] current_verses@[t].verse == v,
            decreases i - j,
        {
            if current_verses[j].verse == v {
                taken = true;
            }
            j = j + 1;
        }
        let xrefs = if taken {
            let empty: Vec<XrefDto> = Vec::new();
            assert(verse_xrefs(cross_refs@, current_verses@, i as int) =~= Seq::empty());
            empty
        } else {
            xrefs_for_verse(books, cross_refs, v)
        };
        out.push(VerseDto { number: v, text: current_verses[i].text.clone(), xrefs });
        i = i + 1;
    }
    proof {
        assert forall|i: int| #![trigger out@[i]] 0 <= i < current_verses@.len() implies {
                        let shown = out@[i].xrefs@;
                        let v = current_verses@[i].verse;
                        let from_verse = cross_refs@.filter(|r: CrossReference| r.verse == v);
                        &&& out@[i].number == v
                        &&& out@[i].text == current_verses@[i].text
                        &&& (exists|j: int| 0 <= j < i && #[trigger] current_verses@[j].verse == v)
                            ==> shown.len() == 0
                        &&& !(exists|j: int| 0 <= j < i && #[trigger] current_verses@[j].verse == v)
                            ==> shown.len() == from_verse.len() && forall|k: int|
                            0 <= k < shown.len() ==> (#[trigger] shown[k]).book_id
                                == from_verse[k].ref_book_id && shown[k].chapter
                                == from_verse[k].ref_chapter && shown[k].verse == from_verse[k].ref_verse
                                && shown[k].end_verse == from_verse[k].ref_end_verse && reads_as_citation(
                                shown[k].citation@,
                                spec_book_name(books@, from_verse[k].ref_book_id),
                                from_verse[k].ref_chapter,
                                from_verse[k].ref_verse,
                                from_verse[k].ref_end_verse,
                            )
        } by {
            let v = current_verses@[i].verse;
            assert(verse_of(books@, out@[i], current_verses@[i], verse_xrefs(cross_refs@, current_verses@, i)));
            if !(exists|j: int| 0 <= j < i && #[trigger] current_verses@[j].verse == v) {
                let fv = cross_refs@.filter(|r: CrossReference| r.verse == v);
                assert(verse_xrefs(cross_refs@, current_verses@, i) == fv);
                lemma_xrefs_read_back(books@, out@[i].xrefs@, fv);
            }
        }
    }
    Some(
        ReadingPaneDto {
            current_book_id: current.book_id,
            current_chapter: current.chapter,
            current_book_name: books[b].name.clone(),
            current_verses: out,
            prev,
            next,
            has_chapter_xrefs: cross_refs.len() > 0,
        },
    )
}

/// Where `verse..=end_verse` of a cross-reference expansion ends: the given
/// end verse, or the start verse itself when none is given.
pub fn xref_end_verse(verse: i64, end_verse: Option<i64>) -> (r: i64)
    ensures
        r == match end_verse {
            Some(e) => e,
            None => verse,
        },
{
    match end_verse {
        Some(e) => e,
        None => verse,
    }
}

/// The books of one testament, in their given order.
pub open spec fn testament_books(books: Seq<Book>, testament: Seq<char>) -> Seq<Book> {
    books.filter(|b: Book| b.testament@ == testament)
}

/// The books whose testament is `testament`, in their given order.
pub fn books_in_testament(books: &[Book], testament: &str) -> (r: Vec<Book>)
    ensures
        r@ == testament_books(books@, testament@),
        r@ == books@.filter(|b: Book| b.testament@ == testament@),
{
    let wanted = testament.to_owned();
    let mut out: Vec<Book> = Vec::new();
    let mut k: usize = 0;
    while k < books.len()
        invariant
            k <= books.len(),
            wanted@ == testament@,
            out@ == testament_books(books@.take(k as int), testament@),
        decreases books.len() - k,
    {
        proof {
            reveal(Seq::filter);
            assert(books@.take(k + 1).drop_last() =~= books@.take(k as int));
        }
        if books[k].testament == wanted {
            out.push(
                Book {
                    id: books[k].id,
                    name: books[k].name.clone(),
                    testament: books[k].testament.clone(),
                    chapter_count: books[k].chapter_count,
                },
            );
        }
        k = k + 1;
    }
    assert(books@.take(books.len() as int) =~= books@);
    out
}

/// Where reading starts: the saved position, or chapter 1 of book 1 in the
/// default translation when nothing has been read yet.
pub open spec fn spec_initial_position(
    translations: Seq<Translation>,
    saved: Option<(i64, i64, i64)>,
) -> (i64, i64, i64) {
    match saved {
        Some(p) => p,
        None => (spec_resolve_translation(translations, None), 1, 1),
    }
}

/// The (translation id, book id, chapter) to open on: the saved reading
/// position, falling back to Genesis 1 in the default translation if
/// nothing has ever been read yet.
pub fn initial_position(translations: &[Translation], saved: Option<(i64, i64, i64)>) -> (r: (
    i64,
    i64,
    i64,
))
    ensures
        r == spec_initial_position(translations@, saved),
        saved matches Some(p) ==> r == p,
        saved is None ==> r == (
            if translations@.len() > 0 {
                translations@[0].id
            } else {
                1
            },
            1i64,
            1i64,
        ),
{
    proof {
        lemma_resolve_translation_picks_the_code(translations@, Seq::empty());
    }
    match saved {
        Some(p) => p,
        None => (resolve_translation(translations, None), 1, 1),
    }
}

/// The code of the first translation with id `id`, or the empty text when
/// there is none.
pub open spec fn spec_translation_code(translations: Seq<Translation>, id: i64) -> Seq<char> {
    if exists|i: int| 0 <= i < translations.len() && #[trigger] translations[i].id == id {
        translations[choose|i: int| is_first_translation_with_id(translations, id, i)].code@
    } else {
        Seq::empty()
    }
}

/// `translations[i]` is the first translation with id `id`.
pub open spec fn is_first_translation_with_id(translations: Seq<Translation>, id: i64, i: int) -> bool {
    &&& 0 <= i < translations.len()
    &&& translations[i].id == id
    &&& forall|j: int| 0 <= j < i ==> #[trigger] translations[j].id != id
}

/// The code for a translation id is the code of the first translation with
/// that id, and empty only when no translation has it.
pub proof fn lemma_translation_code_is_that_translations(translations: Seq<Translation>, id: i64)
    ensures
        (exists|i: int| 0 <= i < translations.len() && #[trigger] translations[i].id == id)
            ==> exists|i: int|
            0 <= i < translations.len() && #[trigger] translations[i].id == id && (forall|j: int|
                0 <= j < i ==> translations[j].id != id) && spec_translation_code(translations, id)
                == translations[i].code@,
        !(exists|i: int| 0 <= i < translations.len() && #[trigger] translations[i].id == id)
            ==> spec_translation_code(translations, id) == Seq::<char>::empty(),
{
    if exists|i: int| 0 <= i < translations.len() && #[trigger] translations[i].id == id {
        let w = choose|i: int| 0 <= i < translations.len() && #[trigger] translations[i].id == id;
        let f = lemma_first_translation_with_id_from(translations, id, w);
        let k = choose|i: int| is_first_translation_with_id(translations, id, i);
        if k < f {
            assert(translations[k].id != id);
        } else if f < k {
            assert(translations[f].id != id);
        }
    }
}

proof fn lemma_first_translation_with_id_from(translations: Seq<Translation>, id: i64, w: int) -> (f: int)
    requires
        0 <= w < translations.len(),
        translations[w].id == id,
    ensures
        is_first_translation_with_id(translations, id, f),
    decreases w,
{
    if exists|j: int| 0 <= j < w && #[trigger] translations[j].id == id {
        let j = choose|j: int| 0 <= j < w && #[trigger] translations[j].id == id;
        lemma_first_translation_with_id_from(translations, id, j)
    } else {
        w
    }
}

/// The code of the translation with the given id (empty when unknown).
pub fn translation_code_for(translations: &[Translation], id: i64) -> (r: String)
    ensures
        r@ == spec_translation_code(translations@, id),
        (exists|i: int| 0 <= i < translations@.len() && #[trigger] translations@[i].id == id)
            ==> exists|i: int|
            0 <= i < translations@.len() && #[trigger] translations@[i].id == id && (forall|j: int|
                0 <= j < i ==> translations@[j].id != id) && r@ == translations@[i].code@,
        !(exists|i: int| 0 <= i < translations@.len() && #[trigger] translations@[i].id == id)
            ==> r@ == Seq::<char>::empty(),
{
    proof {
        lemma_translation_code_is_that_translations(translations@, id);
    }
    let mut j: usize = 0;
    while j < translations.len()
        invariant
            j <= translations.len(),
            forall|t: int| 0 <= t < j ==> #[trigger] translations@[t].id != id,
        decreases translations.len() - j,
    {
        if translations[j].id == id {
            assert(is_first_translation_with_id(translations@, id, j as int));
            proof {
                let k = choose|i: int| is_first_translation_with_id(translations@, id, i);
                if k < j {
                    assert(translations@[k].id != id);
                } else if j < k {
                    assert(translations@[j as int].id != id);
                }
            }
            return translations[j].code.clone();
        }
        j = j + 1;
    }
    String::new()
}

fn book_dtos(books: &[Book]) -> (r: Vec<BookDto>)
    ensures
        r@ == books@.map_values(|b: Book| book_dto_of(b)),
{
    let mut out: Vec<BookDto> = Vec::new();
    let mut k: usize = 0;
    while k < books.len()
        invariant
            k <= books.len(),
            out@ == books@.take(k as int).map_values(|b: Book| book_dto_of(b)),
        decreases books.len() - k,
    {
        out.push(BookDto::from(&books[k]));
        assert(books@.take(k + 1).map_values(|b: Book| book_dto_of(b)) =~= books@.take(
            k as int,
        ).map_values(|b: Book| book_dto_of(b)).push(book_dto_of(books@[k as int])));
        k = k + 1;
    }
    assert(books@.take(books.len() as int) =~= books@);
    out
}

/// Initial state for the home screen: the full book list split by
/// testament, the translation picker, and whichever chapter the reader was
/// last on (`saved`), falling back to Genesis 1 in the default translation
/// if nothing has ever been read yet.
pub fn build_home_dto(books: &[Book], translations: &[Translation], saved: Option<(i64, i64, i64)>) -> (r: HomeDto)
    ensures
        r.ot_books@ == testament_books(books@, seq!['O', 'T']).map_values(|b: Book| book_dto_of(b)),
        r.nt_books@ == testament_books(books@, seq!['N', 'T']).map_values(|b: Book| book_dto_of(b)),
        r.translations@ == translations@.map_values(|t: Translation| translation_dto_of(t)),
        r.current_translation_code@ == spec_translation_code(
            translations@,
            spec_initial_position(translations@, saved).0,
        ),
        r.current_book_id == spec_initial_position(translations@, saved).1,
        r.current_chapter == spec_initial_position(translations@, saved).2,
        r.ot_books@.len() == books@.filter(|b: Book| b.testament@ == seq!['O', 'T']).len(),
        forall|k: int|
            0 <= k < r.ot_books@.len() ==> {
                let b = books@.filter(|b: Book| b.testament@ == seq!['O', 'T'])[k];
                &&& (#[trigger] r.ot_books@[k]).id == b.id
                &&& r.ot_books@[k].name == b.name
                &&& r.ot_books@[k].chapter_count == b.chapter_count
            },
        r.nt_books@.len() == books@.filter(|b: Book| b.testament@ == seq!['N', 'T']).len(),
        forall|k: int|
            0 <= k < r.nt_books@.len() ==> {
                let b = books@.filter(|b: Book| b.testament@ == seq!['N', 'T'])[k];
                &&& (#[trigger] r.nt_books@[k]).id == b.id
                &&& r.nt_books@[k].name == b.name
                &&& r.nt_books@[k].chapter_count == b.chapter_count
            },
        r.translations@.len() == translations@.len(),
        forall|k: int|
            0 <= k < r.translations@.len() ==> (#[trigger] r.translations@[k]).code
                == translations@[k].code && r.translations@[k].name == translations@[k].name,
        ({
            let start: (i64, i64, i64) = match saved {
                Some(p) => p,
                None => (
                    if translations@.len() > 0 {
                        translations@[0].id
                    } else {
                        1
                    },
                    1,
                    1,
                ),
            };
            &&& r.current_book_id == start.1
            &&& r.current_chapter == start.2
            &&& (exists|i: int| 0 <= i < translations@.len() && #[trigger] translations@[i].id == start.0)
                ==> exists|i: int|
                0 <= i < translations@.len() && #[trigger] translations@[i].id == start.0 && (forall|
                    j: int,
                |
                    0 <= j < i ==> translations@[j].id != start.0) && r.current_translation_code@
                    == translations@[i].code@
            &&& !(exists|i: int|
                0 <= i < translations@.len() && #[trigger] translations@[i].id == start.0)
                ==> r.current_translation_code@ == Seq::<char>::empty()
        }),
{
    proof {
        reveal_strlit("OT");
        reveal_strlit("NT");
    }
    let ot = books_in_testament(books, "OT");
    let nt = books_in_testament(books, "NT");
    assert("OT"@ =~= seq!['O', 'T']);
    assert("NT"@ =~= seq!['N', 'T']);
    let ot_books = book_dtos(ot.as_slice());
    let nt_books = book_dtos(nt.as_slice());
    let mut picker: Vec<TranslationDto> = Vec::new();
    let mut k: usize = 0;
    while k < translations.len()
        invariant
            k <= translations.len(),
            picker@ == translations@.take(k as int).map_values(|t: Translation| translation_dto_of(t)),
        decreases translations.len() - k,
    {
        picker.push(TranslationDto::from(&translations[k]));
        assert(translations@.take(k + 1).map_values(|t: Translation| translation_dto_of(t))
            =~= translations@.take(k as int).map_values(|t: Translation| translation_dto_of(t)).push(
            translation_dto_of(translations@[k as int]),
        ));
        k = k + 1;
    }
    assert(translations@.take(translations.len() as int) =~= translations@);
    let (translation_id, book_id, chapter) = initial_position(translations, saved);
    HomeDto {
        ot_books,
        nt_books,
        translations: picker,
        current_translation_code: translation_code_for(translations, translation_id),
        current_book_id: book_id,
        current_chapter: chapter,
    }
}

} // verus!
