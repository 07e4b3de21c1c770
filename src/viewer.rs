//! Navigation over the cards of a collection that are in view: all of them,
//! or only the starred ones.

use vstd::prelude::*;
use crate::card::{Flashcard, CardModel, models};
use crate::gesture::Pulse;

verus! {

/// Absolute indices of the cards in view, in collection order.
pub open spec fn view_indices(cards: Seq<CardModel>, starred_only: bool) -> Seq<int>
    decreases cards.len(),
{
    if cards.len() == 0 {
        Seq::empty()
    } else {
        let rest = view_indices(cards.drop_last(), starred_only);
        if !starred_only || cards.last().star {
            rest.push(cards.len() - 1)
        } else {
            rest
        }
    }
}

/// Number of cards in view.
pub open spec fn view_count(cards: Seq<CardModel>, starred_only: bool) -> nat {
    view_indices(cards, starred_only).len()
}

/// Position after moving forward in a view of `n` cards.
pub open spec fn next_position(i: nat, n: nat) -> nat {
    if i + 1 >= n { 0 } else { (i + 1) as nat }
}

/// Position after moving backward in a view of `n` cards.
pub open spec fn prev_position(i: nat, n: nat) -> nat {
    if i == 0 { (n - 1) as nat } else { (i - 1) as nat }
}

/// Position after moving forward `k` times.
pub open spec fn advance_times(i: nat, n: nat, k: nat) -> nat
    decreases k,
{
    if k == 0 { i } else { advance_times(next_position(i, n), n, (k - 1) as nat) }
}

/// Position kept when the view changes to `n` cards: the old one, clamped.
pub open spec fn clamp_position(i: nat, n: nat) -> nat {
    if n == 0 { 0 } else if i < n { i } else { (n - 1) as nat }
}

/// Every index in view is in range, strictly increasing, and (under the
/// starred-only filter) points at a starred card.
pub proof fn lemma_view_indices_sound(cards: Seq<CardModel>, starred_only: bool)
    ensures
        view_count(cards, starred_only) <= cards.len(),
        forall|k: int| 0 <= k < view_count(cards, starred_only) ==> {
            let j = #[trigger] view_indices(cards, starred_only)[k];
            &&& 0 <= j < cards.len()
            &&& (starred_only ==> cards[j].star)
        },
    decreases cards.len(),
{
    if cards.len() > 0 {
        lemma_view_indices_sound(cards.drop_last(), starred_only);
    }
}

/// The view of the whole collection holds every card.
pub proof fn lemma_view_all(cards: Seq<CardModel>)
    ensures
        view_count(cards, false) == cards.len(),
    decreases cards.len(),
{
    if cards.len() > 0 {
        lemma_view_all(cards.drop_last());
    }
}

/// Unstarring a card that is starred removes exactly one card from the
/// starred view.
pub proof fn lemma_unstar_count(cards: Seq<CardModel>, j: int, c: CardModel)
    requires
        0 <= j < cards.len(),
        cards[j].star,
        !c.star,
    ensures
        view_count(cards.update(j, c), true) + 1 == view_count(cards, true),
    decreases cards.len(),
{
    let u = cards.update(j, c);
    if j == cards.len() - 1 {
        assert(u.drop_last() =~= cards.drop_last());
    } else {
        assert(u.drop_last() =~= cards.drop_last().update(j, c));
        lemma_unstar_count(cards.drop_last(), j, c);
    }
}

/// Moving forward as many times as the view holds cards comes back to the
/// starting position, and moving backward from the first position reaches
/// the last one.
pub proof fn lemma_wraparound(start: nat, n: nat)
    requires
        start < n,
    ensures
        advance_times(start, n, n) == start,
        prev_position(0, n) == n - 1,
{
    lemma_advance_mod(start, n, n);
    assert((start + n) % n == start) by (nonlinear_arith)
        requires start < n;
}

proof fn lemma_advance_mod(i: nat, n: nat, k: nat)
    requires
        i < n,
    ensures
        advance_times(i, n, k) == (i + k) % n,
    decreases k,
{
    if k == 0 {
        assert(i % n == i) by (nonlinear_arith)
            requires i < n;
    } else {
        let j = next_position(i, n);
        lemma_advance_mod(j, n, (k - 1) as nat);
        assert(((j + (k - 1) as nat) % n) == (i + k) % n) by (nonlinear_arith)
            requires i < n, j == (if i + 1 >= n { 0 } else { i + 1 }), k >= 1;
    }
}

/// Which face of the card is shown.
#[derive(Clone, Copy, Debug, PartialEq, Eq, Hash, Structural)]
pub enum CardSide {
    Front,
    Back,
}

impl CardSide {
    pub fn toggle(&mut self)
        ensures
            *final(self) == (match *old(self) {
                CardSide::Front => CardSide::Back,
                CardSide::Back => CardSide::Front,
            }),
    {
        *self = match *self {
            CardSide::Front => CardSide::Back,
            CardSide::Back => CardSide::Front,
        };
    }
}

impl Default for CardSide {
    fn default() -> (r: CardSide)
        ensures
            r == CardSide::Front,
    {
        CardSide::Front
    }
}


/// The mathematical state of a navigator.
pub struct NavModel {
    pub cards: Seq<CardModel>,
    pub position: nat,
    pub starred_only: bool,
    pub side: CardSide,
    pub default_side: CardSide,
}

/// Number of cards in the navigator's view.
pub open spec fn count_of(m: NavModel) -> nat {
    view_count(m.cards, m.starred_only)
}

/// Absolute index of the card at the current position.
pub open spec fn current_index(m: NavModel) -> int {
    view_indices(m.cards, m.starred_only)[m.position as int]
}

/// The position is in range whenever the view is non-empty, and zero when
/// it is empty.
pub open spec fn nav_wf(m: NavModel) -> bool {
    &&& count_of(m) == 0 ==> m.position == 0
    &&& count_of(m) > 0 ==> m.position < count_of(m)
}

pub open spec fn flipped_side(s: CardSide) -> CardSide {
    match s {
        CardSide::Front => CardSide::Back,
        CardSide::Back => CardSide::Front,
    }
}

pub open spec fn with_position(m: NavModel, position: nat, side: CardSide) -> NavModel {
    NavModel {
        cards: m.cards,
        position,
        starred_only: m.starred_only,
        side,
        default_side: m.default_side,
    }
}

/// State after moving to the next card in view.
pub open spec fn advanced(m: NavModel) -> NavModel {
    with_position(m, next_position(m.position, count_of(m)), m.default_side)
}

/// State after moving to the previous card in view.
pub open spec fn retreated(m: NavModel) -> NavModel {
    with_position(m, prev_position(m.position, count_of(m)), m.default_side)
}

/// State after turning the card over.
pub open spec fn flipped(m: NavModel) -> NavModel {
    with_position(m, m.position, flipped_side(m.side))
}

/// State after switching between all cards and starred cards: the position
/// is kept, clamped into the new view.
pub open spec fn filter_toggled(m: NavModel) -> NavModel {
    NavModel {
        cards: m.cards,
        position: clamp_position(m.position, view_count(m.cards, !m.starred_only)),
        starred_only: !m.starred_only,
        side: m.side,
        default_side: m.default_side,
    }
}

/// State after toggling the star of the current card. Under the starred-only
/// filter the card leaves the view, and the position steps back (wrapping to
/// the new last card), or becomes zero when no starred card is left.
pub open spec fn star_toggled(m: NavModel) -> NavModel {
    let j = current_index(m);
    let c = m.cards[j];
    let cards = m.cards.update(j, CardModel { front: c.front, back: c.back, star: !c.star });
    let n = view_count(cards, m.starred_only);
    NavModel {
        cards,
        position: if !m.starred_only {
            m.position
        } else if n == 0 {
            0
        } else {
            prev_position(m.position, n)
        },
        starred_only: m.starred_only,
        side: m.side,
        default_side: m.default_side,
    }
}

/// Each transition keeps the position in range, and the view becomes empty
/// only when the last starred card is unstarred under the starred-only
/// filter.
pub proof fn lemma_transitions_keep_wf(m: NavModel)
    requires
        nav_wf(m),
        count_of(m) > 0,
    ensures
        nav_wf(advanced(m)),
        nav_wf(retreated(m)),
        nav_wf(flipped(m)),
        nav_wf(filter_toggled(m)),
        nav_wf(star_toggled(m)),
        count_of(star_toggled(m)) == 0 ==> m.starred_only && count_of(m) == 1,
{
    lemma_view_indices_sound(m.cards, m.starred_only);
    let j = current_index(m);
    let c = m.cards[j];
    let cards = m.cards.update(j, CardModel { front: c.front, back: c.back, star: !c.star });
    if m.starred_only {
        lemma_unstar_count(m.cards, j, CardModel { front: c.front, back: c.back, star: !c.star });
    } else {
        lemma_view_all(m.cards);
        lemma_view_all(cards);
    }
}


/// Under the starred-only filter, toggling the star of the current card
/// removes it from the view, which shrinks by one; the position steps back
/// by one, wrapping to the new last card from the first, so it stays in
/// range; when the view empties the position is zero.
pub proof fn lemma_unstar_under_filter(m: NavModel)
    requires
        nav_wf(m),
        m.starred_only,
        count_of(m) > 0,
    ensures
        count_of(star_toggled(m)) + 1 == count_of(m),
        !star_toggled(m).cards[current_index(m)].star,
        star_toggled(m).position == (if count_of(m) == 1 {
            0
        } else {
            prev_position(m.position, (count_of(m) - 1) as nat)
        }),
        nav_wf(star_toggled(m)),
{
    lemma_view_indices_sound(m.cards, m.starred_only);
    let j = current_index(m);
    let c = m.cards[j];
    lemma_unstar_count(m.cards, j, CardModel { front: c.front, back: c.back, star: !c.star });
    lemma_transitions_keep_wf(m);
}

/// Absolute indices of the first `i` cards in view are a prefix of those of
/// all cards.
proof fn lemma_view_prefix(cards: Seq<CardModel>, starred_only: bool, i: int)
    requires
        0 <= i <= cards.len(),
    ensures
        forall|k: int| 0 <= k < view_count(cards.take(i), starred_only) ==>
            view_indices(cards.take(i), starred_only)[k] == #[trigger] view_indices(cards, starred_only)[k],
        view_count(cards.take(i), starred_only) <= view_count(cards, starred_only),
    decreases cards.len(),
{
    if i == cards.len() {
        assert(cards.take(i) =~= cards);
    } else {
        assert(cards.take(i) =~= cards.drop_last().take(i));
        lemma_view_prefix(cards.drop_last(), starred_only, i);
    }
}

/// Number of cards of `cards` in view.
pub fn count_in_view(cards: &Vec<Flashcard>, starred_only: bool) -> (r: usize)
    ensures
        r == view_count(models(cards@), starred_only),
{
    let ghost m = models(cards@);
    let mut i: usize = 0;
    let mut n: usize = 0;
    while i < cards.len()
        invariant
            i <= cards@.len(),
            m == models(cards@),
            n == view_count(m.take(i as int), starred_only),
        decreases cards@.len() - i,
    {
        proof {
            assert(m.take(i as int + 1).drop_last() =~= m.take(i as int));
            lemma_view_indices_sound(m.take(i as int), starred_only);
        }
        if !starred_only || cards[i].star {
            n = n + 1;
        }
        i = i + 1;
    }
    proof {
        assert(m.take(i as int) =~= m);
    }
    n
}

/// Absolute index of the `k`-th card in view.
pub fn index_in_view(cards: &Vec<Flashcard>, starred_only: bool, k: usize) -> (r: usize)
    requires
        k < view_count(models(cards@), starred_only),
    ensures
        r == view_indices(models(cards@), starred_only)[k as int],
        r < cards@.len(),
{
    let ghost m = models(cards@);
    proof {
        lemma_view_indices_sound(m, starred_only);
    }
    let mut i: usize = 0;
    let mut n: usize = 0;
    while i < cards.len()
        invariant
            i <= cards@.len(),
            m == models(cards@),
            k < view_count(m, starred_only),
            n <= k,
            n == view_count(m.take(i as int), starred_only),
        decreases cards@.len() - i,
    {
        proof {
            assert(m.take(i as int + 1).drop_last() =~= m.take(i as int));
        }
        if !starred_only || cards[i].star {
            if n == k {
                proof {
                    lemma_view_prefix(m, starred_only, i as int + 1);
                }
                return i;
            }
            n = n + 1;
        }
        i = i + 1;
    }
    proof {
        assert(m.take(i as int) =~= m);
    }
    0
}

/// What the caller does after an event.
#[derive(Clone, Copy, Debug, PartialEq, Eq, Structural)]
pub enum ViewerAction {
    Redraw,
    Ignore,
    Finish,
}

/// An input event while viewing cards.
#[derive(Clone, Copy, Debug, PartialEq, Eq, Structural)]
pub enum ViewerEvent {
    ToggleStar,
    Flip,
    Next,
    Previous,
    ToggleFilter,
    Exit,
    Other,
}

/// Navigates the cards in view (all, or only the starred ones) of a
/// collection it owns for the session, and hands back on `into_cards`.
pub struct CardViewer {
    cards: Vec<Flashcard>,
    index: usize,
    starred_only: bool,
    side: CardSide,
    default_side: CardSide,
}

impl View for CardViewer {
    type V = NavModel;

    closed spec fn view(&self) -> NavModel {
        NavModel {
            cards: models(self.cards@),
            position: self.index as nat,
            starred_only: self.starred_only,
            side: self.side,
            default_side: self.default_side,
        }
    }
}

impl CardViewer {
    pub open spec fn wf(&self) -> bool {
        nav_wf(self@)
    }

    /// Starts at the first card in view, front side up.
    pub fn new(cards: Vec<Flashcard>, starred_only: bool) -> (r: CardViewer)
        ensures
            r@ == (NavModel {
                cards: models(cards@),
                position: 0,
                starred_only,
                side: CardSide::Front,
                default_side: CardSide::Front,
            }),
            r.wf(),
    {
        CardViewer {
            cards,
            index: 0,
            starred_only,
            side: CardSide::Front,
            default_side: CardSide::Front,
        }
    }

    /// Number of cards in view.
    pub fn count(&self) -> (r: usize)
        ensures
            r == count_of(self@),
    {
        count_in_view(&self.cards, self.starred_only)
    }

    /// Whether no card is in view, which ends the session.
    pub fn is_empty(&self) -> (r: bool)
        ensures
            r == (count_of(self@) == 0),
    {
        self.count() == 0
    }

    pub fn position(&self) -> (r: usize)
        ensures
            r == self@.position,
    {
        self.index
    }

    pub fn starred_only(&self) -> (r: bool)
        ensures
            r == self@.starred_only,
    {
        self.starred_only
    }

    pub fn side(&self) -> (r: CardSide)
        ensures
            r == self@.side,
    {
        self.side
    }

    /// The whole collection, in its original order.
    pub fn collection(&self) -> (r: &Vec<Flashcard>)
        ensures
            models(r@) == self@.cards,
    {
        &self.cards
    }

    /// The cards in view, in collection order.
    pub fn cards(&self) -> (r: Vec<Flashcard>)
        ensures
            models(r@) == view_indices(self@.cards, self@.starred_only).map_values(|j: int| self@.cards[j]),
    {
        let ghost m = models(self.cards@);
        let ghost so = self.starred_only;
        let mut out: Vec<Flashcard> = Vec::new();
        let mut i: usize = 0;
        while i < self.cards.len()
            invariant
                i <= self.cards@.len(),
                m == models(self.cards@),
                so == self.starred_only,
                models(out@) == view_indices(m.take(i as int), so).map_values(|j: int| m[j]),
            decreases self.cards@.len() - i,
        {
            let ghost before = models(out@);
            proof {
                assert(m.take(i as int + 1).drop_last() =~= m.take(i as int));
                assert(m.take(i as int + 1).last() == m[i as int]);
                assert(m[i as int] == self.cards@[i as int]@);
            }
            if !self.starred_only || self.cards[i].star {
                let c = self.cards[i].duplicate();
                out.push(c);
                proof {
                    assert(view_indices(m.take(i as int + 1), so) == view_indices(m.take(i as int), so).push(
                        i as int,
                    ));
                    assert(models(out@) =~= before.push(m[i as int]));
                    assert(models(out@) =~= view_indices(m.take(i as int + 1), so).map_values(|j: int| m[j]));
                }
            } else {
                proof {
                    assert(models(out@) =~= view_indices(m.take(i as int + 1), so).map_values(|j: int| m[j]));
                }
            }
            i = i + 1;
        }
        proof {
            assert(m.take(i as int) =~= m);
        }
        out
    }

    /// Ends the session and hands the collection back.
    pub fn into_cards(self) -> (r: Vec<Flashcard>)
        ensures
            models(r@) == self@.cards,
    {
        self.cards
    }

    /// The card at the current position.
    pub fn current(&self) -> (r: &Flashcard)
        requires
            self.wf(),
            count_of(self@) > 0,
        ensures
            r@ == self@.cards[current_index(self@)],
    {
        let j = index_in_view(&self.cards, self.starred_only, self.index);
        &self.cards[j]
    }

    /// Moves to the next card in view, wrapping from the last to the first.
    pub fn advance(&mut self)
        requires
            old(self).wf(),
            count_of(old(self)@) > 0,
        ensures
            final(self)@ == advanced(old(self)@),
            final(self).wf(),
    {
        proof {
            lemma_transitions_keep_wf(self@);
        }
        let n = self.count();
        if self.index + 1 >= n {
            self.index = 0;
        } else {
            self.index = self.index + 1;
        }
        self.side = self.default_side;
    }

    /// Moves to the previous card in view, wrapping from the first to the
    /// last.
    pub fn retreat(&mut self)
        requires
            old(self).wf(),
            count_of(old(self)@) > 0,
        ensures
            final(self)@ == retreated(old(self)@),
            final(self).wf(),
    {
        proof {
            lemma_transitions_keep_wf(self@);
        }
        let n = self.count();
        if self.index == 0 {
            self.index = n - 1;
        } else {
            self.index = self.index - 1;
        }
        self.side = self.default_side;
    }

    /// Turns the current card over.
    pub fn flip(&mut self)
        requires
            old(self).wf(),
            count_of(old(self)@) > 0,
        ensures
            final(self)@ == flipped(old(self)@),
            final(self).wf(),
    {
        proof {
            lemma_transitions_keep_wf(self@);
        }
        self.side.toggle();
    }

    /// Switches between all cards and starred cards, keeping the position
    /// (clamped into the new view). Returns whether the new view has cards.
    pub fn toggle_filter(&mut self) -> (r: bool)
        requires
            old(self).wf(),
            count_of(old(self)@) > 0,
        ensures
            final(self)@ == filter_toggled(old(self)@),
            final(self).wf(),
            r == (count_of(final(self)@) > 0),
    {
        proof {
            lemma_transitions_keep_wf(self@);
        }
        self.starred_only = !self.starred_only;
        let n = self.count();
        if n == 0 {
            self.index = 0;
        } else if self.index >= n {
            self.index = n - 1;
        }
        n > 0
    }

    /// Toggles the star of the current card. Returns whether cards are still
    /// in view; when none is, the session is over.
    pub fn toggle_star(&mut self) -> (r: bool)
        requires
            old(self).wf(),
            count_of(old(self)@) > 0,
        ensures
            final(self)@ == star_toggled(old(self)@),
            final(self).wf(),
            r == (count_of(final(self)@) > 0),
    {
        proof {
            lemma_transitions_keep_wf(self@);
        }
        let ghost m = self@;
        let j = index_in_view(&self.cards, self.starred_only, self.index);
        let card = self.cards[j].star_toggled();
        self.cards.set(j, card);
        proof {
            assert(models(self.cards@) =~= star_toggled(m).cards);
        }
        if self.starred_only {
            let n = self.count();
            if n == 0 {
                self.index = 0;
                return false;
            }
            if self.index == 0 {
                self.index = n - 1;
            } else {
                self.index = self.index - 1;
            }
            true
        } else {
            true
        }
    }

    /// Applies a pulse of the gesture decoder: forward and backward move
    /// through the view.
    pub fn apply_pulse(&mut self, pulse: Pulse) -> (r: ViewerAction)
        requires
            old(self).wf(),
            count_of(old(self)@) > 0,
        ensures
            final(self).wf(),
            final(self)@ == (match pulse {
                Pulse::Forward => advanced(old(self)@),
                Pulse::Backward => retreated(old(self)@),
                Pulse::Stay => old(self)@,
            }),
            r == (match pulse {
                Pulse::Stay => ViewerAction::Ignore,
                _ => ViewerAction::Redraw,
            }),
    {
        match pulse {
            Pulse::Forward => {
                self.advance();
                ViewerAction::Redraw
            },
            Pulse::Backward => {
                self.retreat();
                ViewerAction::Redraw
            },
            Pulse::Stay => ViewerAction::Ignore,
        }
    }

    /// Applies one event.
    pub fn handle(&mut self, event: ViewerEvent) -> (r: ViewerAction)
        requires
            old(self).wf(),
            count_of(old(self)@) > 0,
        ensures
            final(self).wf(),
            final(self)@ == (match event {
                ViewerEvent::ToggleStar => star_toggled(old(self)@),
                ViewerEvent::Flip => flipped(old(self)@),
                ViewerEvent::Next => advanced(old(self)@),
                ViewerEvent::Previous => retreated(old(self)@),
                ViewerEvent::ToggleFilter => filter_toggled(old(self)@),
                _ => old(self)@,
            }),
            r == (match event {
                ViewerEvent::Exit => ViewerAction::Finish,
                ViewerEvent::Other => ViewerAction::Ignore,
                _ => if count_of(final(self)@) > 0 {
                    ViewerAction::Redraw
                } else {
                    ViewerAction::Finish
                },
            }),
    {
        proof {
            lemma_transitions_keep_wf(self@);
        }
        match event {
            ViewerEvent::ToggleStar => {
                if self.toggle_star() {
                    ViewerAction::Redraw
                } else {
                    ViewerAction::Finish
                }
            },
            ViewerEvent::Flip => {
                self.flip();
                ViewerAction::Redraw
            },
            ViewerEvent::Next => {
                self.advance();
                ViewerAction::Redraw
            },
            ViewerEvent::Previous => {
                self.retreat();
                ViewerAction::Redraw
            },
            ViewerEvent::ToggleFilter => {
                if self.toggle_filter() {
                    ViewerAction::Redraw
                } else {
                    ViewerAction::Finish
                }
            },
            ViewerEvent::Exit => ViewerAction::Finish,
            ViewerEvent::Other => ViewerAction::Ignore,
        }
    }
}

} // verus!
