use flashcards::picker::{is_card_file, FileCursor, VISIBLE_ENTRIES};

#[test]
fn card_files_end_with_csv_tns() {
    assert!(is_card_file(b"spanish.csv.tns"));
    assert!(is_card_file(b".csv.tns"));
    assert!(!is_card_file(b"spanish.csv"));
    assert!(!is_card_file(b"spanish.tns"));
    assert!(!is_card_file(b"csv.tns"));
    assert!(!is_card_file(b""));
}

#[test]
fn moving_down_scrolls_and_wraps() {
    let mut c = FileCursor::new(10);
    for _ in 0..VISIBLE_ENTRIES - 1 {
        c.move_down();
    }
    assert_eq!((c.index(), c.top()), (7, 0));
    c.move_down();
    assert_eq!((c.index(), c.top()), (8, 1));
    c.move_down();
    assert_eq!((c.index(), c.top()), (9, 2));
    c.move_down();
    assert_eq!((c.index(), c.top()), (0, 0));
}

#[test]
fn moving_up_scrolls_and_wraps() {
    let mut c = FileCursor::new(10);
    c.move_up();
    assert_eq!((c.index(), c.top()), (9, 2));
    c.move_up();
    c.move_up();
    assert_eq!((c.index(), c.top()), (7, 2));
    c.move_up();
    c.move_up();
    c.move_up();
    assert_eq!((c.index(), c.top()), (4, 2));
    c.move_up();
    c.move_up();
    c.move_up();
    assert_eq!((c.index(), c.top()), (1, 1));
    let mut short = FileCursor::new(3);
    short.move_up();
    assert_eq!((short.index(), short.top(), short.len()), (2, 0, 3));
}
