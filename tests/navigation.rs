use flashcards::card::Flashcard;
use flashcards::gesture::Pulse;
use flashcards::selector::{CardSelector, SelectorAction, SelectorEvent};
use flashcards::viewer::{CardSide, CardViewer, ViewerAction, ViewerEvent};

fn deck(stars: &[bool]) -> Vec<Flashcard> {
    stars
        .iter()
        .enumerate()
        .map(|(i, &star)| Flashcard { a: format!("f{i}"), b: format!("b{i}"), star })
        .collect()
}

#[test]
fn advance_wraps_back_to_start() {
    for start in 0..4 {
        let mut v = CardViewer::new(deck(&[false, true, false, true]), false);
        for _ in 0..start {
            v.advance();
        }
        assert_eq!(v.position(), start);
        for _ in 0..4 {
            v.advance();
        }
        assert_eq!(v.position(), start);
    }
}

#[test]
fn retreat_from_first_goes_to_last() {
    let mut v = CardViewer::new(deck(&[false, false, false, false, false]), false);
    v.retreat();
    assert_eq!(v.position(), 4);
    assert_eq!(v.current().a, "f4");
}

#[test]
fn starred_view_skips_unstarred_cards() {
    let mut v = CardViewer::new(deck(&[false, true, false, true]), true);
    assert_eq!(v.count(), 2);
    assert_eq!(v.current().a, "f1");
    v.advance();
    assert_eq!(v.current().a, "f3");
    v.advance();
    assert_eq!(v.current().a, "f1");
}

#[test]
fn unstarring_under_filter_keeps_position_in_range() {
    let mut v = CardViewer::new(deck(&[true, false, true, true]), true);
    v.advance();
    v.advance();
    assert_eq!(v.position(), 2);
    assert!(v.toggle_star());
    assert_eq!(v.count(), 2);
    assert_eq!(v.position(), 1);
    assert!(v.toggle_star());
    assert_eq!(v.count(), 1);
    assert_eq!(v.position(), 0);
    assert!(!v.toggle_star());
    assert!(v.is_empty());
    let cards = v.into_cards();
    assert!(cards.iter().all(|c| !c.star));
}

#[test]
fn cards_lists_only_the_cards_in_view() {
    let v = CardViewer::new(deck(&[false, true, false, true]), true);
    let names: Vec<String> = v.cards().iter().map(|c| c.a.clone()).collect();
    assert_eq!(names, vec!["f1", "f3"]);
    assert_eq!(v.collection().len(), 4);
    let all = CardViewer::new(deck(&[false, true]), false);
    assert_eq!(all.cards(), deck(&[false, true]));
    let none = CardViewer::new(deck(&[false]), true);
    assert!(none.cards().is_empty());
}

#[test]
fn unstarring_first_wraps_to_last() {
    let mut v = CardViewer::new(deck(&[true, true, true]), true);
    assert!(v.toggle_star());
    assert_eq!(v.position(), 1);
    assert_eq!(v.current().a, "f2");
}

#[test]
fn toggling_star_in_full_view_keeps_position() {
    let mut v = CardViewer::new(deck(&[false, false]), false);
    v.advance();
    assert!(v.toggle_star());
    assert_eq!(v.position(), 1);
    assert!(v.current().star);
    assert!(v.collection()[1].star);
}

#[test]
fn filter_toggle_clamps_position() {
    let mut v = CardViewer::new(deck(&[true, false, false, true]), false);
    v.retreat();
    assert_eq!(v.position(), 3);
    assert!(v.toggle_filter());
    assert!(v.starred_only());
    assert_eq!(v.position(), 1);
    assert_eq!(v.current().a, "f3");
    let mut w = CardViewer::new(deck(&[false, false]), false);
    assert!(!w.toggle_filter());
    assert_eq!(w.position(), 0);
}

#[test]
fn events_drive_the_viewer() {
    let mut v = CardViewer::new(deck(&[false, false, false]), false);
    assert_eq!(v.handle(ViewerEvent::Flip), ViewerAction::Redraw);
    assert_eq!(v.side(), CardSide::Back);
    assert_eq!(v.handle(ViewerEvent::Next), ViewerAction::Redraw);
    assert_eq!(v.side(), CardSide::Front);
    assert_eq!(v.position(), 1);
    assert_eq!(v.handle(ViewerEvent::Previous), ViewerAction::Redraw);
    assert_eq!(v.position(), 0);
    assert_eq!(v.handle(ViewerEvent::Other), ViewerAction::Ignore);
    assert_eq!(v.handle(ViewerEvent::Exit), ViewerAction::Finish);
    assert_eq!(v.apply_pulse(Pulse::Backward), ViewerAction::Redraw);
    assert_eq!(v.position(), 2);
    assert_eq!(v.apply_pulse(Pulse::Forward), ViewerAction::Redraw);
    assert_eq!(v.position(), 0);
    assert_eq!(v.apply_pulse(Pulse::Stay), ViewerAction::Ignore);
}

#[test]
fn last_unstar_event_finishes() {
    let mut v = CardViewer::new(deck(&[false, true]), true);
    assert_eq!(v.handle(ViewerEvent::ToggleStar), ViewerAction::Finish);
}

#[test]
fn card_side_toggles() {
    let mut s = CardSide::default();
    assert_eq!(s, CardSide::Front);
    s.toggle();
    assert_eq!(s, CardSide::Back);
    s.toggle();
    assert_eq!(s, CardSide::Front);
}

#[test]
fn selector_counts_and_chooses() {
    let cards = deck(&[true, false, true]);
    let mut s = CardSelector::new(&cards, "spanish".to_string());
    assert_eq!(s.name(), "spanish");
    assert_eq!(s.card_count(), 3);
    assert_eq!(s.starred_count(), 2);
    assert_eq!(s.handle(SelectorEvent::Confirm), SelectorAction::Start(false));
    assert_eq!(s.handle(SelectorEvent::ToggleStarred), SelectorAction::Redraw);
    assert!(s.starred_only());
    assert_eq!(s.handle(SelectorEvent::Confirm), SelectorAction::Start(true));
    assert_eq!(s.handle(SelectorEvent::Cancel), SelectorAction::Cancel);
}

#[test]
fn selector_without_stars_or_cards() {
    let cards = deck(&[false]);
    let mut s = CardSelector::new(&cards, "spanish".to_string());
    s.handle(SelectorEvent::ToggleStarred);
    assert!(!s.starred_only());
    let mut e = CardSelector::new(&Vec::new(), String::new());
    assert_eq!(e.handle(SelectorEvent::Confirm), SelectorAction::Ignore);
}
