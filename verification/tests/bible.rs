use gospel_getter::db::models::Book;
use gospel_getter::domain::bible::{find_book, next_chapter, previous_chapter, ChapterRef};

fn sample_books() -> Vec<Book> {
    vec![
        Book {
            id: 1,
            name: "Genesis".to_string(),
            testament: "OT".to_string(),
            chapter_count: 50,
        },
        Book {
            id: 2,
            name: "Exodus".to_string(),
            testament: "OT".to_string(),
            chapter_count: 40,
        },
        Book {
            id: 3,
            name: "Leviticus".to_string(),
            testament: "OT".to_string(),
            chapter_count: 27,
        },
    ]
}

fn at(book_id: i64, chapter: i64) -> ChapterRef {
    ChapterRef { book_id, chapter }
}

#[test]
fn next_within_same_book() {
    let books = sample_books();
    let at = ChapterRef {
        book_id: 1,
        chapter: 1,
    };
    assert_eq!(
        next_chapter(&books, at),
        Some(ChapterRef {
            book_id: 1,
            chapter: 2
        })
    );
}

#[test]
fn next_crosses_book_boundary() {
    let books = sample_books();
    let at = ChapterRef {
        book_id: 1,
        chapter: 50,
    };
    assert_eq!(
        next_chapter(&books, at),
        Some(ChapterRef {
            book_id: 2,
            chapter: 1
        })
    );
}

#[test]
fn next_at_end_of_bible_is_none() {
    let books = sample_books();
    let at = ChapterRef {
        book_id: 3,
        chapter: 27,
    };
    assert_eq!(next_chapter(&books, at), None);
}

#[test]
fn previous_within_same_book() {
    let books = sample_books();
    let at = ChapterRef {
        book_id: 2,
        chapter: 5,
    };
    assert_eq!(
        previous_chapter(&books, at),
        Some(ChapterRef {
            book_id: 2,
            chapter: 4
        })
    );
}

#[test]
fn previous_crosses_book_boundary() {
    let books = sample_books();
    let at = ChapterRef {
        book_id: 2,
        chapter: 1,
    };
    assert_eq!(
        previous_chapter(&books, at),
        Some(ChapterRef {
            book_id: 1,
            chapter: 50
        })
    );
}

#[test]
fn previous_at_start_of_bible_is_none() {
    let books = sample_books();
    let at = ChapterRef {
        book_id: 1,
        chapter: 1,
    };
    assert_eq!(previous_chapter(&books, at), None);
}

#[test]
fn next_of_unknown_book_is_none() {
    let books = sample_books();
    assert_eq!(next_chapter(&books, at(9, 1)), None);
}

#[test]
fn previous_of_unknown_book_stays_in_it_until_chapter_one() {
    let books = sample_books();
    assert_eq!(previous_chapter(&books, at(9, 3)), Some(at(9, 2)));
    assert_eq!(previous_chapter(&books, at(9, 1)), Some(at(3, 27)));
}

#[test]
fn navigation_follows_ids_not_list_order() {
    let mut books = sample_books();
    books.reverse();
    assert_eq!(next_chapter(&books, at(1, 50)), Some(at(2, 1)));
    assert_eq!(previous_chapter(&books, at(3, 1)), Some(at(2, 40)));
}

#[test]
fn navigation_skips_gaps_in_ids() {
    let mut books = sample_books();
    books.remove(1);
    assert_eq!(next_chapter(&books, at(1, 50)), Some(at(3, 1)));
    assert_eq!(previous_chapter(&books, at(3, 1)), Some(at(1, 50)));
}

#[test]
fn previous_takes_the_last_of_equal_ids_and_next_the_first() {
    let mut books = sample_books();
    books.push(Book {
        id: 1,
        name: "Genesis again".to_string(),
        testament: "OT".to_string(),
        chapter_count: 7,
    });
    books.push(Book {
        id: 3,
        name: "Leviticus again".to_string(),
        testament: "OT".to_string(),
        chapter_count: 9,
    });
    assert_eq!(previous_chapter(&books, at(2, 1)), Some(at(1, 7)));
    assert_eq!(next_chapter(&books, at(3, 26)), Some(at(3, 27)));
    assert_eq!(find_book(&books, 3), Some(2));
}

#[test]
fn stepping_forward_then_back_returns() {
    let books = sample_books();
    for (b, count) in [(1i64, 50i64), (2, 40), (3, 27)] {
        for c in 1..=count {
            let here = at(b, c);
            if let Some(n) = next_chapter(&books, here) {
                assert_eq!(previous_chapter(&books, n), Some(here));
            }
            if let Some(p) = previous_chapter(&books, here) {
                assert_eq!(next_chapter(&books, p), Some(here));
            }
        }
    }
}

#[test]
fn walking_the_whole_bible_visits_every_chapter_once() {
    let books = sample_books();
    let mut here = at(1, 1);
    let mut seen = 1;
    while let Some(n) = next_chapter(&books, here) {
        assert!(n.book_id > here.book_id || (n.book_id == here.book_id && n.chapter > here.chapter));
        here = n;
        seen += 1;
    }
    assert_eq!(here, at(3, 27));
    assert_eq!(seen, 50 + 40 + 27);
}

#[test]
fn navigation_ignores_list_order_and_names() {
    let books = sample_books();
    let mut shuffled = vec![books[2].clone(), books[0].clone(), books[1].clone()];
    for b in shuffled.iter_mut() {
        b.name = format!("{} (renamed)", b.name);
    }
    for b in 0..=4i64 {
        for c in 0..=51i64 {
            let here = at(b, c);
            assert_eq!(next_chapter(&books, here), next_chapter(&shuffled, here));
            assert_eq!(previous_chapter(&books, here), previous_chapter(&shuffled, here));
        }
    }
}
