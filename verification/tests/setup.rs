use gospel_getter::config::listen_addr_text;
use gospel_getter::db::connect::sqlite_file_path;
use gospel_getter::db::legacy::should_copy_legacy_db;
use gospel_getter::db::seed::{plan_seed, seed_rows, PlannedTranslation, RawBook};

fn codes(list: &[&str]) -> Vec<String> {
    list.iter().map(|c| c.to_string()).collect()
}

fn planned(source_index: usize, translation_id: i64, seeds_books: bool) -> PlannedTranslation {
    PlannedTranslation {
        source_index,
        translation_id,
        seeds_books,
    }
}

#[test]
fn fresh_database_seeds_every_translation() {
    let plan = plan_seed(&codes(&[]), 0, None, &codes(&["kjv", "web"])).unwrap();
    assert_eq!(plan, vec![planned(0, 1, true), planned(1, 2, false)]);
}

#[test]
fn only_missing_translations_are_seeded() {
    let plan = plan_seed(&codes(&["kjv"]), 66, Some(1), &codes(&["kjv", "web"])).unwrap();
    assert_eq!(plan, vec![planned(1, 2, false)]);
}

#[test]
fn ids_count_on_from_the_largest_id() {
    let plan = plan_seed(&codes(&["web"]), 66, Some(5), &codes(&["kjv", "web", "asv"])).unwrap();
    assert_eq!(plan, vec![planned(0, 6, false), planned(2, 7, false)]);
}

#[test]
fn books_come_with_the_first_translation_seeded_into_an_empty_table() {
    let plan = plan_seed(&codes(&["kjv"]), 0, Some(1), &codes(&["kjv", "web", "asv"])).unwrap();
    assert_eq!(plan, vec![planned(1, 2, true), planned(2, 3, false)]);
}

#[test]
fn a_repeated_code_is_seeded_once() {
    let plan = plan_seed(&codes(&[]), 0, None, &codes(&["kjv", "kjv"])).unwrap();
    assert_eq!(plan, vec![planned(0, 1, true)]);
}

#[test]
fn seeding_again_plans_nothing() {
    let plan = plan_seed(&codes(&["kjv", "web"]), 66, Some(2), &codes(&["kjv", "web"])).unwrap();
    assert!(plan.is_empty());
}

#[test]
fn id_overflow_is_reported() {
    assert!(plan_seed(&codes(&[]), 0, Some(i64::MAX), &codes(&[])).is_none());
    assert!(plan_seed(&codes(&[]), 0, Some(i64::MAX - 1), &codes(&["kjv"])).is_none());
    assert_eq!(
        plan_seed(&codes(&[]), 0, Some(i64::MAX - 2), &codes(&["kjv"])).unwrap(),
        vec![planned(0, i64::MAX - 1, true)]
    );
    assert!(plan_seed(&codes(&["kjv"]), 0, Some(i64::MAX - 1), &codes(&["kjv"])).unwrap().is_empty());
}

fn raw(name: &str, testament: &str, chapters: &[&[&str]]) -> RawBook {
    RawBook {
        name: name.to_string(),
        testament: testament.to_string(),
        chapters: chapters
            .iter()
            .map(|c| c.iter().map(|v| v.to_string()).collect())
            .collect(),
    }
}

#[test]
fn rows_number_books_chapters_and_verses_from_one() {
    let books = vec![
        raw("Genesis", "OT", &[&["a", "b"], &["c"]]),
        raw("Exodus", "OT", &[&[], &["d", "e", "f"]]),
    ];
    let (book_rows, verse_rows) = seed_rows(3, &books, true);
    assert_eq!(book_rows.len(), 2);
    assert_eq!((book_rows[0].id, book_rows[0].name.as_str(), book_rows[0].chapter_count), (1, "Genesis", 2));
    assert_eq!((book_rows[1].id, book_rows[1].testament.as_str(), book_rows[1].chapter_count), (2, "OT", 2));
    let keys: Vec<(i64, i64, i64, i64, &str)> = verse_rows
        .iter()
        .map(|r| (r.translation_id, r.book_id, r.chapter, r.verse, r.text.as_str()))
        .collect();
    assert_eq!(
        keys,
        vec![
            (3, 1, 1, 1, "a"),
            (3, 1, 1, 2, "b"),
            (3, 1, 2, 1, "c"),
            (3, 2, 2, 1, "d"),
            (3, 2, 2, 2, "e"),
            (3, 2, 2, 3, "f"),
        ]
    );
}

#[test]
fn rows_without_books_when_books_are_already_there() {
    let books = vec![raw("Genesis", "OT", &[&["a"]])];
    let (book_rows, verse_rows) = seed_rows(2, &books, false);
    assert!(book_rows.is_empty());
    assert_eq!(verse_rows.len(), 1);
}

#[test]
fn sqlite_url_names_its_file_without_the_query() {
    assert_eq!(
        sqlite_file_path("sqlite:data/gospel_getter.db?mode=rwc"),
        Some("data/gospel_getter.db".to_string())
    );
    assert_eq!(sqlite_file_path("sqlite:/tmp/x.db"), Some("/tmp/x.db".to_string()));
    assert_eq!(sqlite_file_path("sqlite:"), Some(String::new()));
    assert_eq!(sqlite_file_path("sqlite:?a=b?c"), Some(String::new()));
}

#[test]
fn other_urls_name_no_file() {
    assert_eq!(sqlite_file_path("postgres://localhost/db"), None);
    assert_eq!(sqlite_file_path("sqlite"), None);
    assert_eq!(sqlite_file_path("SQLITE:x.db"), None);
    assert_eq!(sqlite_file_path(""), None);
}

#[test]
fn legacy_database_is_copied_only_into_an_empty_place() {
    assert!(should_copy_legacy_db(false, true));
    assert!(!should_copy_legacy_db(true, true));
    assert!(!should_copy_legacy_db(false, false));
    assert!(!should_copy_legacy_db(true, false));
}

#[test]
fn listen_address_defaults() {
    assert_eq!(listen_addr_text(None), "0.0.0.0:3002");
    assert_eq!(listen_addr_text(Some("127.0.0.1:8080".to_string())), "127.0.0.1:8080");
}
