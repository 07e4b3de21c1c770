//! Choosing, before viewing, whether to see all cards or only starred ones.

use vstd::prelude::*;
use crate::card::{Flashcard, models};
use crate::viewer::{view_count, count_in_view};

verus! {

/// An input event on the selection screen.
#[derive(Clone, Copy, Debug, PartialEq, Eq, Structural)]
pub enum SelectorEvent {
    ToggleStarred,
    Confirm,
    Cancel,
    Other,
}

/// What the caller does after an event on the selection screen.
#[derive(Clone, Copy, Debug, PartialEq, Eq, Structural)]
pub enum SelectorAction {
    Redraw,
    Ignore,
    /// Start viewing; the flag says whether only starred cards are shown.
    Start(bool),
    Cancel,
}

/// Selection state over a collection: its size, how many cards are
/// starred, and the chosen filter.
pub struct CardSelector {
    name: String,
    card_count: usize,
    starred_count: usize,
    starred_only: bool,
}

impl CardSelector {
    pub closed spec fn spec_name(&self) -> Seq<char> {
        self.name@
    }

    pub closed spec fn spec_card_count(&self) -> nat {
        self.card_count as nat
    }

    pub closed spec fn spec_starred_count(&self) -> nat {
        self.starred_count as nat
    }

    pub closed spec fn spec_starred_only(&self) -> bool {
        self.starred_only
    }

    /// Starts with all cards chosen; `name` is the title shown for the
    /// collection.
    pub fn new(cards: &Vec<Flashcard>, name: String) -> (r: CardSelector)
        ensures
            r.spec_name() == name@,
            r.spec_card_count() == cards@.len(),
            r.spec_starred_count() == view_count(models(cards@), true),
            !r.spec_starred_only(),
    {
        let starred_count = count_in_view(cards, true);
        CardSelector { name, card_count: cards.len(), starred_count, starred_only: false }
    }

    pub fn name(&self) -> (r: &String)
        ensures
            r@ == self.spec_name(),
    {
        &self.name
    }

    pub fn card_count(&self) -> (r: usize)
        ensures
            r == self.spec_card_count(),
    {
        self.card_count
    }

    pub fn starred_count(&self) -> (r: usize)
        ensures
            r == self.spec_starred_count(),
    {
        self.starred_count
    }

    pub fn starred_only(&self) -> (r: bool)
        ensures
            r == self.spec_starred_only(),
    {
        self.starred_only
    }

    /// Applies one event. The filter can be switched only when some card is
    /// starred, and viewing can start only when there are cards.
    pub fn handle(&mut self, event: SelectorEvent) -> (r: SelectorAction)
        ensures
            final(self).spec_name() == old(self).spec_name(),
            final(self).spec_card_count() == old(self).spec_card_count(),
            final(self).spec_starred_count() == old(self).spec_starred_count(),
            final(self).spec_starred_only() == (if event == SelectorEvent::ToggleStarred
                && old(self).spec_starred_count() > 0 {
                !old(self).spec_starred_only()
            } else {
                old(self).spec_starred_only()
            }),
            r == (match event {
                SelectorEvent::ToggleStarred => SelectorAction::Redraw,
                SelectorEvent::Confirm => if old(self).spec_card_count() > 0 {
                    SelectorAction::Start(old(self).spec_starred_only())
                } else {
                    SelectorAction::Ignore
                },
                SelectorEvent::Cancel => SelectorAction::Cancel,
                SelectorEvent::Other => SelectorAction::Ignore,
            }),
    {
        match event {
            SelectorEvent::ToggleStarred => {
                if self.starred_count > 0 {
                    self.starred_only = !self.starred_only;
                }
                SelectorAction::Redraw
            },
            SelectorEvent::Confirm => {
                if self.card_count > 0 {
                    SelectorAction::Start(self.starred_only)
                } else {
                    SelectorAction::Ignore
                }
            },
            SelectorEvent::Cancel => SelectorAction::Cancel,
            SelectorEvent::Other => SelectorAction::Ignore,
        }
    }
}

} // verus!
