use gospel_getter::commands::{
    book_name, books_in_testament, build_chapters_dto, build_citation, build_home_dto,
    build_reading_pane_dto, build_side, initial_position, resolve_translation, simple_verses,
    translation_code_for, xref_end_verse, BookDto, TranslationDto,
};
use gospel_getter::db::models::{Book, CrossReference, Translation, Verse};
use gospel_getter::domain::bible::ChapterRef;
use gospel_getter::text::push_decimal;

fn book(id: i64, name: &str, testament: &str, chapter_count: i64) -> Book {
    Book {
        id,
        name: name.to_string(),
        testament: testament.to_string(),
        chapter_count,
    }
}

fn books() -> Vec<Book> {
    vec![
        book(1, "Genesis", "OT", 50),
        book(2, "Exodus", "OT", 40),
        book(45, "Romans", "NT", 16),
        book(66, "Revelation", "NT", 22),
    ]
}

fn translations() -> Vec<Translation> {
    vec![
        Translation {
            id: 1,
            code: "kjv".to_string(),
            name: "King James Version".to_string(),
        },
        Translation {
            id: 2,
            code: "web".to_string(),
            name: "World English Bible".to_string(),
        },
    ]
}

fn verse(n: i64, text: &str) -> Verse {
    Verse {
        verse: n,
        text: text.to_string(),
    }
}

fn xref(verse: i64, book: i64, chapter: i64, v: i64, end: Option<i64>, score: i64) -> CrossReference {
    CrossReference {
        verse,
        ref_book_id: book,
        ref_chapter: chapter,
        ref_verse: v,
        ref_end_verse: end,
        score,
    }
}

#[test]
fn decimal_text_matches_display() {
    for n in [0i64, 7, 10, 42, 1000, -1, -305, i64::MAX, i64::MIN] {
        let mut s = String::from("x");
        push_decimal(&mut s, n);
        assert_eq!(s, format!("x{n}"));
    }
}

#[test]
fn citation_single_verse() {
    assert_eq!(build_citation(&books(), 45, 8, 28, None), "Romans 8:28");
}

#[test]
fn citation_verse_range() {
    assert_eq!(build_citation(&books(), 45, 8, 28, Some(30)), "Romans 8:28-30");
}

#[test]
fn citation_range_ending_where_it_starts_is_a_single_verse() {
    assert_eq!(build_citation(&books(), 45, 8, 28, Some(28)), "Romans 8:28");
}

#[test]
fn citation_of_unknown_book_uses_question_mark() {
    assert_eq!(build_citation(&books(), 99, 3, 16, None), "? 3:16");
    assert_eq!(build_citation(&books(), 99, -3, 16, Some(-2)), "? -3:16--2");
}

#[test]
fn book_name_looks_up_by_id() {
    assert_eq!(book_name(&books(), 66), Some("Revelation".to_string()));
    assert_eq!(book_name(&books(), 3), None);
}

#[test]
fn resolve_translation_prefers_matching_code() {
    assert_eq!(resolve_translation(&translations(), Some("web")), 2);
    assert_eq!(resolve_translation(&translations(), Some("kjv")), 1);
}

#[test]
fn resolve_translation_falls_back_to_first() {
    let ts = vec![
        Translation {
            id: 7,
            code: "web".to_string(),
            name: "World English Bible".to_string(),
        },
        Translation {
            id: 9,
            code: "kjv".to_string(),
            name: "King James Version".to_string(),
        },
    ];
    assert_eq!(resolve_translation(&ts, Some("niv")), 7);
    assert_eq!(resolve_translation(&ts, None), 7);
}

#[test]
fn resolve_translation_without_translations_is_one() {
    assert_eq!(resolve_translation(&[], Some("kjv")), 1);
    assert_eq!(resolve_translation(&[], None), 1);
}

#[test]
fn chapter_grid_marks_the_active_chapter() {
    let grid = build_chapters_dto(&books(), 45, Some(3)).unwrap();
    assert_eq!(grid.book_id, 45);
    assert_eq!(grid.book_name, "Romans");
    assert_eq!(grid.chapters.len(), 16);
    for (k, entry) in grid.chapters.iter().enumerate() {
        assert_eq!(entry.number, k as i64 + 1);
        assert_eq!(entry.is_active, entry.number == 3);
    }
}

#[test]
fn chapter_grid_without_active_chapter() {
    let grid = build_chapters_dto(&books(), 1, None).unwrap();
    assert_eq!(grid.chapters.len(), 50);
    assert!(grid.chapters.iter().all(|c| !c.is_active));
    let out_of_range = build_chapters_dto(&books(), 1, Some(51)).unwrap();
    assert!(out_of_range.chapters.iter().all(|c| !c.is_active));
}

#[test]
fn chapter_grid_of_unknown_book_is_none() {
    assert!(build_chapters_dto(&books(), 3, None).is_none());
}

#[test]
fn chapter_grid_of_book_without_chapters_is_empty() {
    let bs = vec![book(1, "Empty", "OT", 0), book(2, "Negative", "OT", -4)];
    assert!(build_chapters_dto(&bs, 1, Some(1)).unwrap().chapters.is_empty());
    assert!(build_chapters_dto(&bs, 2, None).unwrap().chapters.is_empty());
}

#[test]
fn side_keeps_verses_in_order() {
    let verses = vec![verse(1, "In the beginning"), verse(2, "And the earth")];
    let side = build_side(&books(), ChapterRef { book_id: 1, chapter: 1 }, &verses).unwrap();
    assert_eq!(side.book_id, 1);
    assert_eq!(side.chapter, 1);
    assert_eq!(side.book_name, "Genesis");
    assert_eq!(side.verses.len(), 2);
    assert_eq!(side.verses[0].number, 1);
    assert_eq!(side.verses[1].text, "And the earth");
}

#[test]
fn side_of_unknown_book_is_none() {
    assert!(build_side(&books(), ChapterRef { book_id: 5, chapter: 1 }, &[]).is_none());
}

#[test]
fn simple_verses_copy_number_and_text() {
    let out = simple_verses(&[verse(28, "And we know"), verse(29, "For whom")]);
    assert_eq!(out.len(), 2);
    assert_eq!((out[0].number, out[0].text.as_str()), (28, "And we know"));
    assert_eq!((out[1].number, out[1].text.as_str()), (29, "For whom"));
}

#[test]
fn reading_pane_groups_cross_references_by_verse() {
    let bs = books();
    let current = ChapterRef { book_id: 45, chapter: 8 };
    let verses = vec![verse(27, "a"), verse(28, "b"), verse(29, "c")];
    let refs = vec![
        xref(28, 1, 50, 20, None, 9),
        xref(28, 45, 8, 29, Some(30), 5),
        xref(27, 66, 1, 1, Some(1), 3),
        xref(31, 2, 3, 14, None, 1),
    ];
    let pane = build_reading_pane_dto(&bs, current, &[verse(1, "p")], &[verse(1, "n")], &refs, &verses)
        .unwrap();
    assert_eq!(pane.current_book_id, 45);
    assert_eq!(pane.current_chapter, 8);
    assert_eq!(pane.current_book_name, "Romans");
    assert!(pane.has_chapter_xrefs);
    let prev = pane.prev.as_ref().unwrap();
    assert_eq!((prev.book_id, prev.chapter, prev.book_name.as_str()), (45, 7, "Romans"));
    assert_eq!(prev.verses[0].text, "p");
    let next = pane.next.as_ref().unwrap();
    assert_eq!((next.book_id, next.chapter), (45, 9));
    assert_eq!(next.verses[0].text, "n");
    assert_eq!(pane.current_verses.len(), 3);
    let v27 = &pane.current_verses[0];
    assert_eq!(v27.xrefs.len(), 1);
    assert_eq!(v27.xrefs[0].citation, "Revelation 1:1");
    assert_eq!(v27.xrefs[0].end_verse, Some(1));
    let v28 = &pane.current_verses[1];
    assert_eq!(v28.text, "b");
    assert_eq!(v28.xrefs.len(), 2);
    assert_eq!(v28.xrefs[0].citation, "Genesis 50:20");
    assert_eq!(v28.xrefs[1].citation, "Romans 8:29-30");
    assert_eq!((v28.xrefs[1].book_id, v28.xrefs[1].chapter, v28.xrefs[1].verse), (45, 8, 29));
    assert!(pane.current_verses[2].xrefs.is_empty());
}

#[test]
fn reading_pane_sides_cross_book_boundaries() {
    let bs = books();
    let pane = build_reading_pane_dto(
        &bs,
        ChapterRef { book_id: 2, chapter: 1 },
        &[verse(26, "last of Genesis")],
        &[verse(1, "Exodus two")],
        &[],
        &[verse(1, "Exodus one")],
    )
    .unwrap();
    let prev = pane.prev.unwrap();
    assert_eq!((prev.book_id, prev.chapter, prev.book_name.as_str()), (1, 50, "Genesis"));
    assert_eq!(prev.verses[0].text, "last of Genesis");
    let next = pane.next.unwrap();
    assert_eq!((next.book_id, next.chapter, next.book_name.as_str()), (2, 2, "Exodus"));
}

#[test]
fn reading_pane_gives_a_repeated_verse_number_no_second_copy() {
    let bs = books();
    let verses = vec![verse(1, "first"), verse(1, "again")];
    let refs = vec![xref(1, 2, 1, 1, None, 1)];
    let pane = build_reading_pane_dto(&bs, ChapterRef { book_id: 1, chapter: 1 }, &[], &[], &refs, &verses)
        .unwrap();
    assert!(pane.prev.is_none());
    assert_eq!(pane.next.as_ref().unwrap().chapter, 2);
    assert_eq!(pane.current_verses[0].xrefs.len(), 1);
    assert!(pane.current_verses[1].xrefs.is_empty());
}

#[test]
fn reading_pane_at_the_end_has_no_next_column() {
    let bs = books();
    let pane = build_reading_pane_dto(&bs, ChapterRef { book_id: 66, chapter: 22 }, &[], &[verse(1, "ignored")], &[], &[verse(21, "x")])
        .unwrap();
    assert!(!pane.has_chapter_xrefs);
    assert!(pane.next.is_none());
    assert_eq!((pane.prev.as_ref().unwrap().book_id, pane.prev.as_ref().unwrap().chapter), (66, 21));
    assert!(pane.current_verses[0].xrefs.is_empty());
}

#[test]
fn reading_pane_of_unknown_book_is_none() {
    assert!(build_reading_pane_dto(&books(), ChapterRef { book_id: 3, chapter: 1 }, &[], &[], &[], &[]).is_none());
}

#[test]
fn testament_split_keeps_order() {
    let ot = books_in_testament(&books(), "OT");
    let nt = books_in_testament(&books(), "NT");
    assert_eq!(ot.iter().map(|b| b.id).collect::<Vec<_>>(), vec![1, 2]);
    assert_eq!(nt.iter().map(|b| b.id).collect::<Vec<_>>(), vec![45, 66]);
    assert!(books_in_testament(&books(), "ot").is_empty());
}

#[test]
fn initial_position_defaults_to_genesis_one() {
    assert_eq!(initial_position(&translations(), None), (1, 1, 1));
    assert_eq!(initial_position(&translations(), Some((2, 45, 8))), (2, 45, 8));
    assert_eq!(initial_position(&[], None), (1, 1, 1));
}

#[test]
fn translation_code_of_unknown_id_is_empty() {
    assert_eq!(translation_code_for(&translations(), 2), "web");
    assert_eq!(translation_code_for(&translations(), 3), "");
}

#[test]
fn home_uses_the_saved_position() {
    let home = build_home_dto(&books(), &translations(), Some((2, 45, 8)));
    assert_eq!(home.ot_books.len(), 2);
    assert_eq!(home.nt_books.len(), 2);
    assert_eq!(home.nt_books[0].name, "Romans");
    assert_eq!(home.nt_books[1].chapter_count, 22);
    assert_eq!(home.translations.len(), 2);
    assert_eq!(home.translations[1].code, "web");
    assert_eq!(home.current_translation_code, "web");
    assert_eq!((home.current_book_id, home.current_chapter), (45, 8));
}

#[test]
fn home_without_saved_position_starts_at_genesis_one() {
    let home = build_home_dto(&books(), &translations(), None);
    assert_eq!(home.current_translation_code, "kjv");
    assert_eq!((home.current_book_id, home.current_chapter), (1, 1));
}

#[test]
fn dto_conversions_copy_fields() {
    let b = book(45, "Romans", "NT", 16);
    let dto = BookDto::from(&b);
    assert_eq!((dto.id, dto.name.as_str(), dto.chapter_count), (45, "Romans", 16));
    let t = &translations()[0];
    let dto = TranslationDto::from(t);
    assert_eq!((dto.code.as_str(), dto.name.as_str()), ("kjv", "King James Version"));
}

#[test]
fn xref_range_end_defaults_to_start_verse() {
    assert_eq!(xref_end_verse(28, None), 28);
    assert_eq!(xref_end_verse(28, Some(30)), 30);
}
