use flashcards::card::{
    card_fields, card_from_fields, is_str_truthy, parse_csv, write_csv, CsvError, Flashcard,
    PartialFlashcard,
};

fn card(a: &str, b: &str, star: bool) -> Flashcard {
    Flashcard { a: a.to_string(), b: b.to_string(), star }
}

fn lines(text: &str) -> Vec<String> {
    text.lines().map(|l| l.to_string()).collect()
}

#[test]
fn truthy_forms_are_starred() {
    for word in ["1", "true", "True", "TRUE", "starred", "STARFISH", "star", " starred ", "\ttrue\n", "\u{3000}true\u{a0}"] {
        assert!(is_str_truthy(word.as_bytes()), "{word:?} should be truthy");
    }
}

#[test]
fn other_forms_are_not_starred() {
    for word in ["0", "false", "", "  ", "sta", "yes", "11", "truey", "xstar"] {
        assert!(!is_str_truthy(word.as_bytes()), "{word:?} should not be truthy");
    }
    assert!(!is_str_truthy(&[0xff, 0xfe]));
}

#[test]
fn third_field_sets_the_star() {
    let cards = parse_csv(&lines("a,b,1\nc,d,True\ne,f,STARFISH\ng,h,0\ni,j,false\nk,l,\nm,n\n")).unwrap();
    let stars: Vec<bool> = cards.iter().map(|c| c.star).collect();
    assert_eq!(stars, vec![true, true, true, false, false, false, false]);
}

#[test]
fn blank_lines_are_skipped() {
    let cards = parse_csv(&lines("a,b\n\n\nc,d\n")).unwrap();
    assert_eq!(cards, vec![card("a", "b", false), card("c", "d", false)]);
}

#[test]
fn missing_fields_default_and_extra_fields_are_ignored() {
    let cards = parse_csv(&lines("front\nx,y,starred,more,fields\n")).unwrap();
    assert_eq!(cards, vec![card("front", "", false), card("x", "y", true)]);
}

#[test]
fn oversized_field_fails_whole_parse() {
    let long = "x".repeat(2000);
    let text = vec!["a,b".to_string(), format!("{long},b"), "c,d".to_string()];
    assert_eq!(parse_csv(&text), Err(CsvError::FieldTooLarge));
}

#[test]
fn field_within_capacity_is_read() {
    let text = vec![format!("{},b", "y".repeat(1000))];
    let cards = parse_csv(&text).unwrap();
    assert_eq!(cards[0].a.len(), 1000);
}

#[test]
fn field_at_capacity_is_read_and_one_more_fails() {
    let at = vec![format!("{},b", "z".repeat(1024))];
    assert_eq!(parse_csv(&at).unwrap()[0].a.len(), 1024);
    let over = vec![format!("a,{}", "z".repeat(1025))];
    assert_eq!(parse_csv(&over), Err(CsvError::FieldTooLarge));
}

#[test]
fn last_line_without_terminator_gives_a_card() {
    let cards = parse_csv(&lines("a,b\nc,d")).unwrap();
    assert_eq!(cards, vec![card("a", "b", false), card("c", "d", false)]);
}

#[test]
fn long_fields_are_written_whole() {
    let long = "w".repeat(3000);
    let quoted = format!("{},\"", "v".repeat(2000));
    let out = String::from_utf8(write_csv(&vec![card(&long, &quoted, false)])).unwrap();
    assert_eq!(out, format!("{},\"{}\"\"\"\n", long, quoted.replace('"', "")));
}

#[test]
fn byte_order_mark_is_skipped_only_at_the_start() {
    let cards = parse_csv(&vec!["\u{feff}a,b".to_string(), "\u{feff}c,d".to_string()]).unwrap();
    assert_eq!(cards, vec![card("a", "b", false), card("\u{feff}c", "d", false)]);
}

#[test]
fn quoted_field_may_hold_a_line_feed_and_end_the_line() {
    let cards = parse_csv(&vec!["\"x\ny\",\"\"".to_string(), "p,\"q,\"".to_string()]).unwrap();
    assert_eq!(cards, vec![card("x\ny", "", false), card("p", "q,", false)]);
}

#[test]
fn quoted_fields_are_unquoted() {
    let cards = parse_csv(&lines("\"a,1\",\"say \"\"hi\"\"\"\n")).unwrap();
    assert_eq!(cards, vec![card("a,1", "say \"hi\"", false)]);
}

#[test]
fn empty_input_gives_no_cards() {
    assert_eq!(parse_csv(&Vec::new()), Ok(Vec::new()));
}

#[test]
fn writes_one_line_per_card() {
    let out = write_csv(&vec![card("a", "b", true), card("c", "d", false)]);
    assert_eq!(String::from_utf8(out).unwrap(), "a,b,starred\nc,d\n");
    assert!(write_csv(&Vec::new()).is_empty());
}

#[test]
fn writes_quotes_where_needed() {
    let out = write_csv(&vec![card("a,1", "say \"hi\"", false)]);
    assert_eq!(String::from_utf8(out).unwrap(), "\"a,1\",\"say \"\"hi\"\"\"\n");
}

#[test]
fn write_then_parse_round_trips() {
    let cards = vec![
        card("hola", "hello", true),
        card("", "empty front", false),
        card("día", "day", false),
        card("gato", "", true),
    ];
    let text = String::from_utf8(write_csv(&cards)).unwrap();
    assert_eq!(parse_csv(&lines(&text)).unwrap(), cards);
}

#[test]
fn card_fields_lists_marker_only_when_starred() {
    assert_eq!(card_fields(&card("a", "b", true)), vec![b"a".to_vec(), b"b".to_vec(), b"starred".to_vec()]);
    assert_eq!(card_fields(&card("a", "b", false)), vec![b"a".to_vec(), b"b".to_vec()]);
}

#[test]
fn card_from_fields_fills_in_order() {
    assert_eq!(card_from_fields(&vec![]), None);
    assert_eq!(card_from_fields(&vec![b"x".to_vec()]), Some(card("x", "", false)));
    assert_eq!(
        card_from_fields(&vec![b"x".to_vec(), b"y".to_vec(), b"star".to_vec()]),
        Some(card("x", "y", true))
    );
    assert_eq!(card_from_fields(&vec![vec![0xff], b"y".to_vec()]), Some(card("\u{fffd}", "y", false)));
}

#[test]
fn partial_card_fills_first_empty_slot() {
    let mut p = PartialFlashcard::new();
    p.fill_with_value(b"one");
    p.fill_with_value(b"two");
    p.fill_with_value(b"1");
    p.fill_with_value(b"ignored");
    assert_eq!(p.a.as_deref(), Some("one"));
    assert_eq!(p.b.as_deref(), Some("two"));
    assert_eq!(p.star, Some(true));
    assert_eq!(Flashcard::from_partial(PartialFlashcard::new()), card("", "", false));
}
