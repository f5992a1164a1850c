//! The game state: the thirteen stable piles, the transient grabbed pile,
//! the difficulty, the drag and win flags, and the operations the event
//! handlers drive them with.

#![allow(non_snake_case)]

use vstd::prelude::*;
use vstd::multiset::Multiset;

use crate::card::{Card, CardView, PileIdentifier, Suit, Rank, CARD_HEIGHT, CARD_WIDTH};
use crate::coordinates::{
    ANCHOR_LIMIT, DECK_X, DECK_Y, DISCARD_X, DISCARD_Y, FINAL1_X, FINAL2_X, FINAL3_X, FINAL4_X,
    FINAL_Y, PILE1_X, PILE2_X, PILE3_X, PILE4_X, PILE5_X, PILE6_X, PILE7_X, PILE_Y, POS_LIMIT,
};
use crate::deck::{
    full_deck_keys, keys_of, lemma_keys_drop_last, lemma_keys_push, lemma_keys_reverse,
};
use crate::pile::{
    add_flush_all, flush_card, lemma_add_flush_all_push, offset_card, Pile, PileView, CARD_OFFSET,
    MAX_PILE_SIZE,
};
use crate::rules::{
    foundation_accepts, stackableCheckForFinal, stackableCheckForPile, tableau_accepts,
};

verus! {

/// The game difficulty, fixed at game start.
#[derive(Clone, Copy, PartialEq, Eq, Structural, Debug)]
pub enum Difficulty {
    Easy,
    Hard,
}

/// The whole game state.
pub struct State {
    /// Indicates if the game is over.
    pub gameOver: bool,
    /// The first pile (left to right).
    pub pile1: Pile,
    /// The second pile (left to right).
    pub pile2: Pile,
    /// The third pile (left to right).
    pub pile3: Pile,
    /// The fourth pile (left to right).
    pub pile4: Pile,
    /// The fifth pile (left to right).
    pub pile5: Pile,
    /// The sixth pile (left to right).
    pub pile6: Pile,
    /// The seventh pile (left to right).
    pub pile7: Pile,
    /// The deck.
    pub deck: Pile,
    /// The discard pile.
    pub discard: Pile,
    /// The first final pile (left to right).
    pub final1: Pile,
    /// The second final pile (left to right).
    pub final2: Pile,
    /// The third final pile (left to right).
    pub final3: Pile,
    /// The fourth final pile (left to right).
    pub final4: Pile,
    /// Indicates if the mouse button is pressed.
    pub mouseDown: bool,
    /// Stores the grabbed cards.
    pub grabbedCards: Pile,
    /// Indicates the game difficulty.
    pub difficulty: Difficulty,
}

/// The mathematical view of the whole game state.
#[verifier::ext_equal]
pub ghost struct StateView {
    pub gameOver: bool,
    pub pile1: PileView,
    pub pile2: PileView,
    pub pile3: PileView,
    pub pile4: PileView,
    pub pile5: PileView,
    pub pile6: PileView,
    pub pile7: PileView,
    pub deck: PileView,
    pub discard: PileView,
    pub final1: PileView,
    pub final2: PileView,
    pub final3: PileView,
    pub final4: PileView,
    pub mouseDown: bool,
    pub grabbedCards: PileView,
    pub difficulty: Difficulty,
}

impl View for State {
    type V = StateView;

    open spec fn view(&self) -> StateView {
        StateView {
            gameOver: self.gameOver,
            pile1: self.pile1@,
            pile2: self.pile2@,
            pile3: self.pile3@,
            pile4: self.pile4@,
            pile5: self.pile5@,
            pile6: self.pile6@,
            pile7: self.pile7@,
            deck: self.deck@,
            discard: self.discard@,
            final1: self.final1@,
            final2: self.final2@,
            final3: self.final3@,
            final4: self.final4@,
            mouseDown: self.mouseDown,
            grabbedCards: self.grabbedCards@,
            difficulty: self.difficulty,
        }
    }
}

/// The card turned face-up.
pub open spec fn face_up(c: CardView) -> CardView {
    CardView { isFaceUp: true, ..c }
}

/// The card turned face-down.
pub open spec fn face_down(c: CardView) -> CardView {
    CardView { isFaceUp: false, ..c }
}

/// Whether the pointer lies over a card-sized box anchored at (x, y).
pub open spec fn spec_mouse_over(mx: int, my: int, x: int, y: int) -> bool {
    mx > x && mx < x + CARD_WIDTH && my > y && my < y + CARD_HEIGHT
}

/// Whether the pointer lies over the fanned body of a pile, short of the
/// top card.
pub open spec fn spec_mouse_over_fan(mx: int, my: int, p: PileView) -> bool {
    mx > p.x && mx < p.x + CARD_WIDTH && my > p.y && my < p.y + (p.cards.len() as int - 1)
        * CARD_OFFSET
}

/// The tableau pile identifier with the given position, left to right.
pub open spec fn spec_tableau_id(i: int) -> PileIdentifier {
    if i == 0 {
        PileIdentifier::Pile1
    } else if i == 1 {
        PileIdentifier::Pile2
    } else if i == 2 {
        PileIdentifier::Pile3
    } else if i == 3 {
        PileIdentifier::Pile4
    } else if i == 4 {
        PileIdentifier::Pile5
    } else if i == 5 {
        PileIdentifier::Pile6
    } else {
        PileIdentifier::Pile7
    }
}

/// The foundation pile identifier with the given position, left to right.
pub open spec fn spec_final_id(i: int) -> PileIdentifier {
    if i == 0 {
        PileIdentifier::Final1
    } else if i == 1 {
        PileIdentifier::Final2
    } else if i == 2 {
        PileIdentifier::Final3
    } else {
        PileIdentifier::Final4
    }
}

/// Whether the identifier names one of the seven tableau piles.
pub open spec fn is_tableau_id(id: PileIdentifier) -> bool {
    match id {
        PileIdentifier::Pile1 | PileIdentifier::Pile2 | PileIdentifier::Pile3
            | PileIdentifier::Pile4 | PileIdentifier::Pile5 | PileIdentifier::Pile6
            | PileIdentifier::Pile7 => true,
        _ => false,
    }
}

/// Whether the identifier names one of the four foundation piles.
pub open spec fn is_final_id(id: PileIdentifier) -> bool {
    match id {
        PileIdentifier::Final1 | PileIdentifier::Final2 | PileIdentifier::Final3
            | PileIdentifier::Final4 => true,
        _ => false,
    }
}

impl StateView {
    /// The pile a given identifier names: a total function over the closed
    /// identifier enum.
    pub open spec fn pile_at(self, id: PileIdentifier) -> PileView {
        match id {
            PileIdentifier::Pile1 => self.pile1,
            PileIdentifier::Pile2 => self.pile2,
            PileIdentifier::Pile3 => self.pile3,
            PileIdentifier::Pile4 => self.pile4,
            PileIdentifier::Pile5 => self.pile5,
            PileIdentifier::Pile6 => self.pile6,
            PileIdentifier::Pile7 => self.pile7,
            PileIdentifier::Deck => self.deck,
            PileIdentifier::Discard => self.discard,
            PileIdentifier::Final1 => self.final1,
            PileIdentifier::Final2 => self.final2,
            PileIdentifier::Final3 => self.final3,
            PileIdentifier::Final4 => self.final4,
            PileIdentifier::GrabbedCards => self.grabbedCards,
        }
    }

    /// The state with the named pile replaced.
    pub open spec fn with_pile(self, id: PileIdentifier, p: PileView) -> StateView {
        match id {
            PileIdentifier::Pile1 => StateView { pile1: p, ..self },
            PileIdentifier::Pile2 => StateView { pile2: p, ..self },
            PileIdentifier::Pile3 => StateView { pile3: p, ..self },
            PileIdentifier::Pile4 => StateView { pile4: p, ..self },
            PileIdentifier::Pile5 => StateView { pile5: p, ..self },
            PileIdentifier::Pile6 => StateView { pile6: p, ..self },
            PileIdentifier::Pile7 => StateView { pile7: p, ..self },
            PileIdentifier::Deck => StateView { deck: p, ..self },
            PileIdentifier::Discard => StateView { discard: p, ..self },
            PileIdentifier::Final1 => StateView { final1: p, ..self },
            PileIdentifier::Final2 => StateView { final2: p, ..self },
            PileIdentifier::Final3 => StateView { final3: p, ..self },
            PileIdentifier::Final4 => StateView { final4: p, ..self },
            PileIdentifier::GrabbedCards => StateView { grabbedCards: p, ..self },
        }
    }

    /// The number of cards on the table, over all piles.
    pub open spec fn total_len(self) -> int {
        self.pile1.cards.len() + self.pile2.cards.len() + self.pile3.cards.len()
            + self.pile4.cards.len() + self.pile5.cards.len() + self.pile6.cards.len()
            + self.pile7.cards.len() + self.deck.cards.len() + self.discard.cards.len()
            + self.final1.cards.len() + self.final2.cards.len() + self.final3.cards.len()
            + self.final4.cards.len() + self.grabbedCards.cards.len() as int
    }

    /// The multiset of suit-and-rank pairs on the table, over all piles.
    /// A state conserves the cards when this stays the full deck: every
    /// card then belongs to exactly one pile, with no duplication and no
    /// orphaning.
    pub open spec fn keys_total(self) -> Multiset<(Suit, Rank)> {
        keys_of(self.pile1.cards).add(keys_of(self.pile2.cards)).add(
            keys_of(self.pile3.cards),
        ).add(keys_of(self.pile4.cards)).add(keys_of(self.pile5.cards)).add(
            keys_of(self.pile6.cards),
        ).add(keys_of(self.pile7.cards)).add(keys_of(self.deck.cards)).add(
            keys_of(self.discard.cards),
        ).add(keys_of(self.final1.cards)).add(keys_of(self.final2.cards)).add(
            keys_of(self.final3.cards),
        ).add(keys_of(self.final4.cards)).add(keys_of(self.grabbedCards.cards))
    }

    /// Whether all four foundation piles hold a full suit of thirteen cards.
    pub open spec fn all_foundations_full(self) -> bool {
        &&& self.final1.cards.len() == 13
        &&& self.final2.cards.len() == 13
        &&& self.final3.cards.len() == 13
        &&& self.final4.cards.len() == 13
    }

    /// Whether a card may be stacked on the pile a given identifier names:
    /// foundation piles take the foundation rule, tableau piles the tableau
    /// rule, and every other destination refuses.
    pub open spec fn can_stack(self, c: CardView, id: PileIdentifier) -> bool {
        if is_final_id(id) {
            foundation_accepts(c, self.pile_at(id).top())
        } else if is_tableau_id(id) {
            tableau_accepts(c, self.pile_at(id).top())
        } else {
            false
        }
    }
}

/// Every card of the sequence sits within the model's coordinate range.
pub open spec fn cards_bounded(cards: Seq<CardView>) -> bool {
    forall|i: int|
        0 <= i < cards.len() ==> {
            &&& -POS_LIMIT <= (#[trigger] cards[i]).x <= POS_LIMIT
            &&& -POS_LIMIT <= cards[i].y <= POS_LIMIT
        }
}

/// Every card of the pile records the pile itself as its origin: the last
/// stable place it was inserted into is the pile that now holds it.
pub open spec fn own_initials(p: PileView) -> bool {
    forall|i: int|
        0 <= i < p.cards.len() ==> (#[trigger] p.cards[i]).initialPile == p.identifier
}

/// Every grabbed card records a tableau, foundation or discard pile as its
/// origin: never the transient grabbed pile, and never the deck, whose
/// cards cannot be grabbed.
pub open spec fn grabbed_initials(cards: Seq<CardView>) -> bool {
    forall|i: int|
        0 <= i < cards.len() ==> (#[trigger] cards[i]).initialPile != PileIdentifier::GrabbedCards
            && cards[i].initialPile != PileIdentifier::Deck
}

/// The cards of the pile fan out: card `i` sits at the anchor shifted down
/// by `i` offsets.
pub open spec fn fanned(p: PileView) -> bool {
    forall|i: int|
        0 <= i < p.cards.len() ==> (#[trigger] p.cards[i]).x == p.x && p.cards[i].y == p.y + i
            * CARD_OFFSET
}

/// The cards of the pile sit flush: every card exactly at the anchor.
pub open spec fn flushed(p: PileView) -> bool {
    forall|i: int|
        0 <= i < p.cards.len() ==> (#[trigger] p.cards[i]).x == p.x && p.cards[i].y == p.y
}

impl State {
    /// The stable piles stand at their canonical anchors and every pile
    /// carries its own identifier.
    pub open spec fn piles_placed(self) -> bool {
        &&& self@.pile1.x == PILE1_X && self@.pile1.y == PILE_Y && self@.pile1.identifier
            == PileIdentifier::Pile1
        &&& self@.pile2.x == PILE2_X && self@.pile2.y == PILE_Y && self@.pile2.identifier
            == PileIdentifier::Pile2
        &&& self@.pile3.x == PILE3_X && self@.pile3.y == PILE_Y && self@.pile3.identifier
            == PileIdentifier::Pile3
        &&& self@.pile4.x == PILE4_X && self@.pile4.y == PILE_Y && self@.pile4.identifier
            == PileIdentifier::Pile4
        &&& self@.pile5.x == PILE5_X && self@.pile5.y == PILE_Y && self@.pile5.identifier
            == PileIdentifier::Pile5
        &&& self@.pile6.x == PILE6_X && self@.pile6.y == PILE_Y && self@.pile6.identifier
            == PileIdentifier::Pile6
        &&& self@.pile7.x == PILE7_X && self@.pile7.y == PILE_Y && self@.pile7.identifier
            == PileIdentifier::Pile7
        &&& self@.deck.x == DECK_X && self@.deck.y == DECK_Y && self@.deck.identifier
            == PileIdentifier::Deck
        &&& self@.discard.x == DISCARD_X && self@.discard.y == DISCARD_Y
            && self@.discard.identifier == PileIdentifier::Discard
        &&& self@.final1.x == FINAL1_X && self@.final1.y == FINAL_Y && self@.final1.identifier
            == PileIdentifier::Final1
        &&& self@.final2.x == FINAL2_X && self@.final2.y == FINAL_Y && self@.final2.identifier
            == PileIdentifier::Final2
        &&& self@.final3.x == FINAL3_X && self@.final3.y == FINAL_Y && self@.final3.identifier
            == PileIdentifier::Final3
        &&& self@.final4.x == FINAL4_X && self@.final4.y == FINAL_Y && self@.final4.identifier
            == PileIdentifier::Final4
        &&& self@.grabbedCards.x == 0 && self@.grabbedCards.y == 0
            && self@.grabbedCards.identifier == PileIdentifier::GrabbedCards
    }

    /// Every card of every pile sits within the model's coordinate range.
    pub open spec fn coords_ok(self) -> bool {
        &&& cards_bounded(self@.pile1.cards)
        &&& cards_bounded(self@.pile2.cards)
        &&& cards_bounded(self@.pile3.cards)
        &&& cards_bounded(self@.pile4.cards)
        &&& cards_bounded(self@.pile5.cards)
        &&& cards_bounded(self@.pile6.cards)
        &&& cards_bounded(self@.pile7.cards)
        &&& cards_bounded(self@.deck.cards)
        &&& cards_bounded(self@.discard.cards)
        &&& cards_bounded(self@.final1.cards)
        &&& cards_bounded(self@.final2.cards)
        &&& cards_bounded(self@.final3.cards)
        &&& cards_bounded(self@.final4.cards)
        &&& cards_bounded(self@.grabbedCards.cards)
    }

    /// The stable piles hold their cards where their placement mode puts
    /// them: tableau piles fan out, the deck, the discard pile and the
    /// foundation piles stack flush.
    pub open spec fn positions_ok(self) -> bool {
        &&& fanned(self@.pile1)
        &&& fanned(self@.pile2)
        &&& fanned(self@.pile3)
        &&& fanned(self@.pile4)
        &&& fanned(self@.pile5)
        &&& fanned(self@.pile6)
        &&& fanned(self@.pile7)
        &&& flushed(self@.deck)
        &&& flushed(self@.discard)
        &&& flushed(self@.final1)
        &&& flushed(self@.final2)
        &&& flushed(self@.final3)
        &&& flushed(self@.final4)
    }

    /// Every card of every pile records a stable pile as its origin.
    pub open spec fn initials_ok(self) -> bool {
        &&& own_initials(self@.pile1)
        &&& own_initials(self@.pile2)
        &&& own_initials(self@.pile3)
        &&& own_initials(self@.pile4)
        &&& own_initials(self@.pile5)
        &&& own_initials(self@.pile6)
        &&& own_initials(self@.pile7)
        &&& own_initials(self@.deck)
        &&& own_initials(self@.discard)
        &&& own_initials(self@.final1)
        &&& own_initials(self@.final2)
        &&& own_initials(self@.final3)
        &&& own_initials(self@.final4)
        &&& grabbed_initials(self@.grabbedCards.cards)
    }

    /// The state invariant: the piles stand at their anchors with their own
    /// identifiers, the 52 cards of one deck are spread over the piles,
    /// every card sits within the coordinate range and at the position its
    /// pile's placement mode dictates, and every card's recorded origin is
    /// a stable pile.
    pub open spec fn wf(self) -> bool {
        &&& self.wf_except_count()
        &&& self@.total_len() == 52
    }

    /// The state invariant short of the card count: what still holds in
    /// the middle of moving a run of cards between piles.
    pub open spec fn wf_except_count(self) -> bool {
        &&& self.piles_placed()
        &&& self.coords_ok()
        &&& self.positions_ok()
        &&& self.initials_ok()
    }

    /// The pile a given identifier names, as an exec value.
    pub open spec fn spec_pile(self, id: PileIdentifier) -> Pile {
        match id {
            PileIdentifier::Pile1 => self.pile1,
            PileIdentifier::Pile2 => self.pile2,
            PileIdentifier::Pile3 => self.pile3,
            PileIdentifier::Pile4 => self.pile4,
            PileIdentifier::Pile5 => self.pile5,
            PileIdentifier::Pile6 => self.pile6,
            PileIdentifier::Pile7 => self.pile7,
            PileIdentifier::Deck => self.deck,
            PileIdentifier::Discard => self.discard,
            PileIdentifier::Final1 => self.final1,
            PileIdentifier::Final2 => self.final2,
            PileIdentifier::Final3 => self.final3,
            PileIdentifier::Final4 => self.final4,
            PileIdentifier::GrabbedCards => self.grabbedCards,
        }
    }

    /// The state with the named pile replaced, as an exec value.
    pub open spec fn spec_set_pile(self, id: PileIdentifier, p: Pile) -> State {
        match id {
            PileIdentifier::Pile1 => State { pile1: p, ..self },
            PileIdentifier::Pile2 => State { pile2: p, ..self },
            PileIdentifier::Pile3 => State { pile3: p, ..self },
            PileIdentifier::Pile4 => State { pile4: p, ..self },
            PileIdentifier::Pile5 => State { pile5: p, ..self },
            PileIdentifier::Pile6 => State { pile6: p, ..self },
            PileIdentifier::Pile7 => State { pile7: p, ..self },
            PileIdentifier::Deck => State { deck: p, ..self },
            PileIdentifier::Discard => State { discard: p, ..self },
            PileIdentifier::Final1 => State { final1: p, ..self },
            PileIdentifier::Final2 => State { final2: p, ..self },
            PileIdentifier::Final3 => State { final3: p, ..self },
            PileIdentifier::Final4 => State { final4: p, ..self },
            PileIdentifier::GrabbedCards => State { grabbedCards: p, ..self },
        }
    }

    /// Identifies a pile by a given identifier and returns a reference to
    /// the pile.
    pub fn identifyPile(&self, identifier: PileIdentifier) -> (r: &Pile)
        ensures
            *r == self.spec_pile(identifier),
            r@ == self@.pile_at(identifier),
    {
        match identifier {
            PileIdentifier::Pile1 => &self.pile1,
            PileIdentifier::Pile2 => &self.pile2,
            PileIdentifier::Pile3 => &self.pile3,
            PileIdentifier::Pile4 => &self.pile4,
            PileIdentifier::Pile5 => &self.pile5,
            PileIdentifier::Pile6 => &self.pile6,
            PileIdentifier::Pile7 => &self.pile7,
            PileIdentifier::Deck => &self.deck,
            PileIdentifier::Discard => &self.discard,
            PileIdentifier::Final1 => &self.final1,
            PileIdentifier::Final2 => &self.final2,
            PileIdentifier::Final3 => &self.final3,
            PileIdentifier::Final4 => &self.final4,
            PileIdentifier::GrabbedCards => &self.grabbedCards,
        }
    }

    /// Identifies a pile by a given identifier and returns a mutable
    /// reference to the pile.
    pub fn identifyPileMut(&mut self, identifier: PileIdentifier) -> (r: &mut Pile)
        ensures
            *r == old(self).spec_pile(identifier),
            *final(self) == old(self).spec_set_pile(identifier, *final(r)),
    {
        match identifier {
            PileIdentifier::Pile1 => &mut self.pile1,
            PileIdentifier::Pile2 => &mut self.pile2,
            PileIdentifier::Pile3 => &mut self.pile3,
            PileIdentifier::Pile4 => &mut self.pile4,
            PileIdentifier::Pile5 => &mut self.pile5,
            PileIdentifier::Pile6 => &mut self.pile6,
            PileIdentifier::Pile7 => &mut self.pile7,
            PileIdentifier::Deck => &mut self.deck,
            PileIdentifier::Discard => &mut self.discard,
            PileIdentifier::Final1 => &mut self.final1,
            PileIdentifier::Final2 => &mut self.final2,
            PileIdentifier::Final3 => &mut self.final3,
            PileIdentifier::Final4 => &mut self.final4,
            PileIdentifier::GrabbedCards => &mut self.grabbedCards,
        }
    }

    /// Checks if a given card can be placed on the pile a given identifier
    /// names.
    pub fn canBeStacked(&self, card: &Card, receiverIdentifier: PileIdentifier) -> (r: bool)
        ensures
            r == self@.can_stack(card@, receiverIdentifier),
    {
        match receiverIdentifier {
            PileIdentifier::Final1 | PileIdentifier::Final2 | PileIdentifier::Final3
                | PileIdentifier::Final4 => stackableCheckForFinal(
                card,
                self.identifyPile(receiverIdentifier),
            ),
            PileIdentifier::Pile1 | PileIdentifier::Pile2 | PileIdentifier::Pile3
                | PileIdentifier::Pile4 | PileIdentifier::Pile5 | PileIdentifier::Pile6
                | PileIdentifier::Pile7 => stackableCheckForPile(
                card,
                self.identifyPile(receiverIdentifier),
            ),
            _ => false,
        }
    }

    /// Checks for the win condition: the game is over when all four
    /// foundation piles hold thirteen cards.
    pub fn checkForWin(&mut self)
        ensures
            final(self)@ == (StateView {
                gameOver: old(self)@.all_foundations_full(),
                ..old(self)@
            }),
    {
        self.gameOver = self.final1.size() == 13 && self.final2.size() == 13 && self.final3.size()
            == 13 && self.final4.size() == 13;
        proof {
            assert(self@ =~= (StateView { gameOver: old(self)@.all_foundations_full(), ..old(self)@ }));
        }
    }

    /// One simulated tick: once the game is over the state is frozen;
    /// before that, the win condition is re-examined.
    pub fn update(&mut self)
        ensures
            final(self)@ == spec_update(old(self)@),
    {
        if self.gameOver {
            return ;
        }
        self.checkForWin();
        proof {
            assert(self@ =~= spec_update(old(self)@));
        }
    }
}

/// What one simulated tick does: nothing once the game is over, else the
/// win condition is re-examined.
pub open spec fn spec_update(sv: StateView) -> StateView {
    if sv.gameOver {
        sv
    } else {
        StateView { gameOver: sv.all_foundations_full(), ..sv }
    }
}

/// What drawing one card does: the deck's top card moves, face-up, flush
/// onto the top of the discard pile.
pub open spec fn spec_draw_step(sv: StateView) -> StateView {
    StateView {
        deck: sv.deck.drop_top(),
        discard: sv.discard.add_flush(face_up(sv.deck.cards.last())),
        ..sv
    }
}

/// Drawing up to `n` cards, stopping early when the deck runs out.
pub open spec fn spec_draw_upto(sv: StateView, n: int) -> StateView
    decreases n,
{
    if n <= 0 || sv.deck.cards.len() == 0 {
        sv
    } else {
        spec_draw_upto(spec_draw_step(sv), n - 1)
    }
}

/// What one draw event on a non-empty deck does: Easy difficulty moves
/// exactly one card, Hard difficulty moves up to three.
pub open spec fn spec_discard_card(sv: StateView) -> StateView {
    if sv.difficulty == Difficulty::Easy {
        spec_draw_step(sv)
    } else {
        spec_draw_upto(sv, 3)
    }
}

/// What recycling the discard pile does: every card of the discard pile,
/// top first, is turned face-down and appended flush to the deck, so the
/// stacking order reverses.
pub open spec fn spec_recycle(sv: StateView) -> StateView {
    StateView {
        deck: add_flush_all(
            sv.deck,
            sv.discard.cards.reverse().map_values(|c: CardView| face_down(c)),
        ),
        discard: sv.discard.with_cards(Seq::empty()),
        ..sv
    }
}

/// Turning cards face-down and reversing them leaves their key multiset
/// unchanged.
pub proof fn lemma_keys_recycled(s: Seq<CardView>)
    ensures
        keys_of(s.reverse().map_values(|c: CardView| face_down(c))) == keys_of(s),
{
    assert(s.reverse().map_values(|c: CardView| face_down(c)).map_values(
        |cc: CardView| cc.key(),
    ) =~= s.reverse().map_values(|cc: CardView| cc.key()));
    lemma_keys_reverse(s);
}

impl State {
    /// Moves the deck's top card, face-up, flush onto the discard pile.
    fn drawOne(&mut self)
        requires
            old(self).wf(),
            old(self)@.deck.cards.len() > 0,
        ensures
            final(self)@ == spec_draw_step(old(self)@),
            final(self).wf(),
            final(self)@.keys_total() == old(self)@.keys_total(),
    {
        let mut card = self.deck.removeCard().unwrap();
        card.isFaceUp = true;
        self.discard.addNoOffset(card);
        proof {
            assert(self@ =~= spec_draw_step(old(self)@));
            lemma_keys_drop_last(old(self)@.deck.cards);
            lemma_keys_push(old(self)@.discard.cards, self@.discard.cards.last());
            assert(self@.keys_total() =~= old(self)@.keys_total());
            assert(self.wf()) by {
                assert(cards_bounded(self@.deck.cards));
                assert(cards_bounded(self@.discard.cards));
                assert(flushed(self@.deck));
                assert(flushed(self@.discard));
                assert(own_initials(self@.deck));
                assert(own_initials(self@.discard));
            }
        }
    }

    /// Handles one draw event on a non-empty deck: Easy difficulty moves
    /// exactly one card, Hard difficulty moves up to three, each flipped
    /// face-up and appended flush onto the discard pile, preserving deck
    /// order.
    pub fn discardCard(&mut self)
        requires
            old(self).wf(),
            old(self)@.deck.cards.len() > 0,
        ensures
            final(self)@ == spec_discard_card(old(self)@),
            final(self).wf(),
            final(self)@.keys_total() == old(self)@.keys_total(),
    {
        if self.difficulty == Difficulty::Easy {
            self.drawOne();
        } else {
            let mut iterations: usize = 0;
            while iterations < 3 && !self.deck.empty()
                invariant
                    self.wf(),
                    iterations <= 3,
                    self@.keys_total() == old(self)@.keys_total(),
                    spec_draw_upto(self@, 3 - iterations) == spec_draw_upto(old(self)@, 3),
                decreases 3 - iterations,
            {
                self.drawOne();
                iterations = iterations + 1;
            }
        }
    }

    /// Removes every card from the discard pile, flips each face-down and
    /// returns them all, flush, into the deck; the stacking order reverses.
    pub fn emptyDiscard(&mut self)
        requires
            old(self).wf(),
        ensures
            final(self)@ == spec_recycle(old(self)@),
            final(self).wf(),
            final(self)@.keys_total() == old(self)@.keys_total(),
    {
        broadcast use vstd::seq_lib::group_to_multiset_ensures;

        let ghost cs = old(self)@.discard.cards.reverse().map_values(|c: CardView| face_down(c));
        let cards = self.discard.removeCards();
        let mut i: usize = 0;
        proof {
            assert(cs.take(0) =~= Seq::<CardView>::empty());
            assert(self@ =~= (StateView {
                deck: add_flush_all(old(self)@.deck, cs.take(0)),
                discard: old(self)@.discard.with_cards(Seq::empty()),
                ..old(self)@
            }));
            assert(keys_of(Seq::<CardView>::empty()) =~= Multiset::<(Suit, Rank)>::empty()) by {
                assert(Seq::<CardView>::empty().map_values(|cc: CardView| cc.key())
                    =~= Seq::<(Suit, Rank)>::empty());
            }
            assert(keys_of(self.deck@.cards) =~= keys_of(old(self)@.deck.cards).add(
                keys_of(cs.take(0)),
            ));
        }
        while i < cards.len()
            invariant
                old(self).wf(),
                i <= cards@.len(),
                cards@.map_values(|c: Card| c@) == old(self)@.discard.cards.reverse(),
                cs == old(self)@.discard.cards.reverse().map_values(|c: CardView| face_down(c)),
                self@ == (StateView {
                    deck: add_flush_all(old(self)@.deck, cs.take(i as int)),
                    discard: old(self)@.discard.with_cards(Seq::empty()),
                    ..old(self)@
                }),
                self.deck@.cards.len() == old(self)@.deck.cards.len() + i,
                keys_of(self.deck@.cards) == keys_of(old(self)@.deck.cards).add(
                    keys_of(cs.take(i as int)),
                ),
                self.deck.wf(),
                self.deck@.identifier == PileIdentifier::Deck,
                self.deck@.x == old(self)@.deck.x,
                self.deck@.y == old(self)@.deck.y,
                flushed(self.deck@),
                own_initials(self.deck@),
            decreases cards@.len() - i,
        {
            let ghost n = i as int;
            let mut card = cards[i];
            card.isFaceUp = false;
            proof {
                assert(card@ == cs[n]);
                assert(self.deck@.cards.len() < MAX_PILE_SIZE) by {
                    assert(old(self)@.total_len() == 52);
                }
            }
            self.deck.addNoOffset(card);
            i = i + 1;
            proof {
                let prevdeck = add_flush_all(old(self)@.deck, cs.take(n));
                assert(cs.take(n + 1) =~= cs.take(n).push(cs[n]));
                lemma_add_flush_all_push(old(self)@.deck, cs.take(n), cs[n]);
                assert(self@ =~= (StateView {
                    deck: add_flush_all(old(self)@.deck, cs.take(n + 1)),
                    discard: old(self)@.discard.with_cards(Seq::empty()),
                    ..old(self)@
                }));
                let pushed = self.deck@.cards.last();
                lemma_keys_push(prevdeck.cards, pushed);
                lemma_keys_push(cs.take(n), cs[n]);
                assert(self.deck@.cards =~= prevdeck.cards.push(pushed));
                assert(pushed.key() == cs[n].key());
                assert(keys_of(self.deck@.cards) =~= keys_of(old(self)@.deck.cards).add(
                    keys_of(cs.take(n + 1)),
                ));
                assert(own_initials(self.deck@));
                assert(flushed(self.deck@));
            }
        }
        proof {
            assert(cs.take(i as int) =~= cs);
            assert(self@ =~= spec_recycle(old(self)@));
            lemma_keys_recycled(old(self)@.discard.cards);
            assert(self@.keys_total() =~= old(self)@.keys_total());
            assert(self.wf()) by {
                assert(cards_bounded(self@.deck.cards)) by {
                    assert(forall|j: int|
                        0 <= j < self.deck@.cards.len() ==> (#[trigger] self.deck@.cards[j]).x
                            == self.deck@.x && self.deck@.cards[j].y == self.deck@.y);
                }
                assert(cards_bounded(self@.discard.cards));
                assert(flushed(self@.discard));
                assert(own_initials(self@.discard));
            }
        }
    }
}

/// The x coordinate of the tableau pile with the given position.
pub open spec fn spec_tableau_x(i: int) -> int {
    if i == 0 {
        PILE1_X as int
    } else if i == 1 {
        PILE2_X as int
    } else if i == 2 {
        PILE3_X as int
    } else if i == 3 {
        PILE4_X as int
    } else if i == 4 {
        PILE5_X as int
    } else if i == 5 {
        PILE6_X as int
    } else {
        PILE7_X as int
    }
}

/// The card, turned face-up when the condition holds.
pub open spec fn flip_if(c: CardView, b: bool) -> CardView {
    if b {
        face_up(c)
    } else {
        c
    }
}

/// How many cards the dealing fan-out removes from the deck before it
/// reaches tableau pile `i`: the sums 1 + 2 + ... + i.
pub open spec fn dealt_before(i: int) -> int {
    if i <= 0 {
        0
    } else if i == 1 {
        1
    } else if i == 2 {
        3
    } else if i == 3 {
        6
    } else if i == 4 {
        10
    } else if i == 5 {
        15
    } else if i == 6 {
        21
    } else {
        28
    }
}

/// The card that dealing puts at position `j` of tableau pile `i`, given
/// the deck the deal started from: the deck is consumed from the top, and
/// the card dealt last to each pile is turned face-up before insertion.
pub open spec fn dealt_card(deck0: Seq<CardView>, i: int, j: int) -> CardView {
    offset_card(
        flip_if(deck0[51 - dealt_before(i) - j], j == i),
        spec_tableau_x(i),
        PILE_Y as int,
        j,
        spec_tableau_id(i),
    )
}

pub(crate) fn tableau_id_of(i: usize) -> (id: PileIdentifier)
    requires
        i < 7,
    ensures
        id == spec_tableau_id(i as int),
{
    if i == 0 {
        PileIdentifier::Pile1
    } else if i == 1 {
        PileIdentifier::Pile2
    } else if i == 2 {
        PileIdentifier::Pile3
    } else if i == 3 {
        PileIdentifier::Pile4
    } else if i == 4 {
        PileIdentifier::Pile5
    } else if i == 5 {
        PileIdentifier::Pile6
    } else {
        PileIdentifier::Pile7
    }
}

impl State {
    /// Generates a new deck with 52 cards, shuffled, and loads it flush
    /// into the deck pile, face-down.
    fn newDeck(&mut self)
        requires
            old(self).piles_placed(),
            old(self)@.deck.cards.len() == 0,
        ensures
            final(self)@ == (StateView { deck: final(self)@.deck, ..old(self)@ }),
            final(self).piles_placed(),
            final(self)@.deck.cards.len() == 52,
            keys_of(final(self)@.deck.cards) == full_deck_keys().to_multiset(),
            forall|j: int|
                0 <= j < 52 ==> (#[trigger] final(self)@.deck.cards[j]) == flush_card(
                    crate::deck::fresh_card(
                        final(self)@.deck.cards[j].suit,
                        final(self)@.deck.cards[j].rank,
                    ),
                    old(self)@.deck.x,
                    old(self)@.deck.y,
                    PileIdentifier::Deck,
                ),
    {
        let cards = crate::deck::newDeck();
        let ghost views = cards@.map_values(|c: Card| c@);
        let mut i: usize = 0;
        proof {
            crate::deck::lemma_keys_empty();
            assert(views.take(0) =~= Seq::<CardView>::empty());
            assert(self.deck@.cards =~= Seq::<CardView>::empty());
        }
        while i < cards.len()
            invariant
                old(self).piles_placed(),
                i <= 52,
                cards@.len() == 52,
                views == cards@.map_values(|c: Card| c@),
                keys_of(views) == full_deck_keys().to_multiset(),
                forall|j: int|
                    0 <= j < 52 ==> (#[trigger] cards@[j])@ == crate::deck::fresh_card(
                        cards@[j]@.suit,
                        cards@[j]@.rank,
                    ),
                self@ == (StateView { deck: self@.deck, ..old(self)@ }),
                self.deck@.x == old(self)@.deck.x,
                self.deck@.y == old(self)@.deck.y,
                self.deck@.identifier == PileIdentifier::Deck,
                self.deck@.cards.len() == i,
                self.deck.wf(),
                keys_of(self.deck@.cards) == keys_of(views.take(i as int)),
                forall|j: int|
                    0 <= j < i ==> (#[trigger] self.deck@.cards[j]) == flush_card(
                        crate::deck::fresh_card(
                            self.deck@.cards[j].suit,
                            self.deck@.cards[j].rank,
                        ),
                        old(self)@.deck.x,
                        old(self)@.deck.y,
                        PileIdentifier::Deck,
                    ),
            decreases cards@.len() - i,
        {
            let ghost n = i as int;
            let ghost prev = self.deck@.cards;
            let card = cards[i];
            self.deck.addNoOffset(card);
            i = i + 1;
            proof {
                let pushed = self.deck@.cards.last();
                lemma_keys_push(prev, pushed);
                lemma_keys_push(views.take(n), views[n]);
                assert(views.take(n + 1) =~= views.take(n).push(views[n]));
                assert(pushed.key() == views[n].key());
                assert(keys_of(self.deck@.cards) =~= keys_of(views.take(n + 1)));
                assert(pushed == flush_card(
                    crate::deck::fresh_card(pushed.suit, pushed.rank),
                    old(self)@.deck.x,
                    old(self)@.deck.y,
                    PileIdentifier::Deck,
                ));
            }
        }
        proof {
            assert(views.take(52) =~= views);
        }
    }

    /// Deals the cards from a freshly loaded deck: tableau pile `i` gets
    /// `i + 1` cards off the top of the deck, fanned out with offset, the
    /// last of them turned face-up; the remaining 24 cards stay in the
    /// deck.
    #[verifier::rlimit(60)]
    pub fn dealCards(&mut self)
        requires
            old(self).piles_placed(),
            old(self)@.deck.cards.len() == 52,
            flushed(old(self)@.deck),
            cards_bounded(old(self)@.deck.cards),
            own_initials(old(self)@.deck),
            forall|i: int|
                0 <= i < 7 ==> old(self)@.pile_at(#[trigger] spec_tableau_id(i)).cards.len() == 0,
            old(self)@.discard.cards.len() == 0,
            old(self)@.final1.cards.len() == 0,
            old(self)@.final2.cards.len() == 0,
            old(self)@.final3.cards.len() == 0,
            old(self)@.final4.cards.len() == 0,
            old(self)@.grabbedCards.cards.len() == 0,
        ensures
            final(self).wf(),
            final(self)@.discard == old(self)@.discard,
            final(self)@.final1 == old(self)@.final1,
            final(self)@.final2 == old(self)@.final2,
            final(self)@.final3 == old(self)@.final3,
            final(self)@.final4 == old(self)@.final4,
            final(self)@.grabbedCards == old(self)@.grabbedCards,
            final(self).gameOver == old(self).gameOver,
            final(self).mouseDown == old(self).mouseDown,
            final(self).difficulty == old(self).difficulty,
            final(self)@.deck == old(self)@.deck.with_cards(old(self)@.deck.cards.take(24)),
            forall|i: int|
                0 <= i < 7 ==> final(self)@.pile_at(#[trigger] spec_tableau_id(i)).cards.len() == i
                    + 1,
            forall|i: int, j: int|
                0 <= i < 7 && 0 <= j <= i ==> final(self)@.pile_at(spec_tableau_id(i)).cards[j]
                    == dealt_card(old(self)@.deck.cards, i, j),
            final(self)@.keys_total() == old(self)@.keys_total(),
    {
        let ghost deck0 = old(self)@.deck.cards;
        for i in 0usize..7
            invariant
                old(self).piles_placed(),
                old(self)@.deck.cards.len() == 52,
                flushed(old(self)@.deck),
                cards_bounded(old(self)@.deck.cards),
                own_initials(old(self)@.deck),
                forall|k: int|
                    0 <= k < 7 ==> old(self)@.pile_at(#[trigger] spec_tableau_id(k)).cards.len()
                        == 0,
                deck0 == old(self)@.deck.cards,
                self@.discard == old(self)@.discard,
                self@.final1 == old(self)@.final1,
                self@.final2 == old(self)@.final2,
                self@.final3 == old(self)@.final3,
                self@.final4 == old(self)@.final4,
                self@.grabbedCards == old(self)@.grabbedCards,
                self.gameOver == old(self).gameOver,
                self.mouseDown == old(self).mouseDown,
                self.difficulty == old(self).difficulty,
                self.piles_placed(),
                self@.deck == old(self)@.deck.with_cards(deck0.take(52 - dealt_before(i as int))),
                forall|k: int|
                    i <= k < 7 ==> self@.pile_at(#[trigger] spec_tableau_id(k)) == old(
                        self,
                    )@.pile_at(spec_tableau_id(k)),
                forall|k: int|
                    0 <= k < i ==> self@.pile_at(#[trigger] spec_tableau_id(k)).cards.len() == k
                        + 1,
                forall|k: int, j2: int|
                    0 <= k < i && 0 <= j2 <= k ==> self@.pile_at(spec_tableau_id(k)).cards[j2]
                        == dealt_card(deck0, k, j2),
                self@.keys_total() == old(self)@.keys_total(),
        {
            let ghost i0 = i as int;
            for j in 0usize..(i + 1)
                invariant
                    old(self).piles_placed(),
                    old(self)@.deck.cards.len() == 52,
                    flushed(old(self)@.deck),
                    cards_bounded(old(self)@.deck.cards),
                    own_initials(old(self)@.deck),
                    forall|k: int|
                        0 <= k < 7 ==> old(self)@.pile_at(
                            #[trigger] spec_tableau_id(k),
                        ).cards.len() == 0,
                    deck0 == old(self)@.deck.cards,
                    i0 == i as int,
                    i < 7,
                    j <= i + 1,
                    self@.discard == old(self)@.discard,
                    self@.final1 == old(self)@.final1,
                    self@.final2 == old(self)@.final2,
                    self@.final3 == old(self)@.final3,
                    self@.final4 == old(self)@.final4,
                    self@.grabbedCards == old(self)@.grabbedCards,
                    self.gameOver == old(self).gameOver,
                    self.mouseDown == old(self).mouseDown,
                    self.difficulty == old(self).difficulty,
                    self.piles_placed(),
                    self@.deck == old(self)@.deck.with_cards(
                        deck0.take(52 - dealt_before(i0) - j),
                    ),
                    forall|k: int|
                        i0 < k < 7 ==> self@.pile_at(#[trigger] spec_tableau_id(k)) == old(
                            self,
                        )@.pile_at(spec_tableau_id(k)),
                    self@.pile_at(spec_tableau_id(i0)).cards.len() == j,
                    forall|j2: int|
                        0 <= j2 < j ==> self@.pile_at(spec_tableau_id(i0)).cards[j2] == dealt_card(
                            deck0,
                            i0,
                            j2,
                        ),
                    forall|k: int|
                        0 <= k < i0 ==> self@.pile_at(#[trigger] spec_tableau_id(k)).cards.len()
                            == k + 1,
                    forall|k: int, j2: int|
                        0 <= k < i0 && 0 <= j2 <= k ==> self@.pile_at(spec_tableau_id(k)).cards[j2]
                            == dealt_card(deck0, k, j2),
                    self@.keys_total() == old(self)@.keys_total(),
            {
                let ghost pre = self@;
                let mut card = self.deck.removeCard().unwrap();
                if j == i {
                    card.isFaceUp = true;
                }
                let ghost mid = self@;
                let ghost cardv = card@;
                let id = tableau_id_of(i);
                let p = self.identifyPileMut(id);
                proof {
                    assert(p@ == pre.pile_at(spec_tableau_id(i0)));
                    assert(p.wf()) by {
                        assert(forall|j2: int|
                            0 <= j2 < p@.cards.len() ==> #[trigger] p@.cards[j2] == dealt_card(
                                deck0,
                                i0,
                                j2,
                            ));
                    }
                }
                p.addCard(card);
                proof {
                    let n = j as int;
                    assert(self@ =~= mid.with_pile(
                        spec_tableau_id(i0),
                        mid.pile_at(spec_tableau_id(i0)).add_offset(cardv),
                    ));
                    assert(deck0.take(52 - dealt_before(i0) - n).drop_last() =~= deck0.take(
                        52 - dealt_before(i0) - (n + 1),
                    ));
                    assert(cardv == flip_if(deck0[51 - dealt_before(i0) - n], n == i0));
                    assert(self@.pile_at(spec_tableau_id(i0)).cards[n] == dealt_card(
                        deck0,
                        i0,
                        n,
                    ));
                    lemma_keys_drop_last(pre.deck.cards);
                    lemma_keys_push(
                        mid.pile_at(spec_tableau_id(i0)).cards,
                        self@.pile_at(spec_tableau_id(i0)).cards.last(),
                    );
                    assert(self@.keys_total() =~= pre.keys_total());
                }
            }
            proof {
                assert(52 - dealt_before(i0) - (i0 + 1) == 52 - dealt_before(i0 + 1));
            }
        }
        proof {
            assert(self@.deck == old(self)@.deck.with_cards(deck0.take(24)));
            assert(self.wf()) by {
                assert(self@.total_len() == 52) by {
                    assert(self@.deck.cards.len() == 24);
                    assert(self@.pile_at(spec_tableau_id(0)).cards.len() == 1);
                    assert(self@.pile_at(spec_tableau_id(1)).cards.len() == 2);
                    assert(self@.pile_at(spec_tableau_id(2)).cards.len() == 3);
                    assert(self@.pile_at(spec_tableau_id(3)).cards.len() == 4);
                    assert(self@.pile_at(spec_tableau_id(4)).cards.len() == 5);
                    assert(self@.pile_at(spec_tableau_id(5)).cards.len() == 6);
                    assert(self@.pile_at(spec_tableau_id(6)).cards.len() == 7);
                }
                assert(forall|j: int| 0 <= j < 24 ==> #[trigger] self@.deck.cards[j] == deck0[j]);
                assert(cards_bounded(self@.deck.cards));
                assert(flushed(self@.deck));
                assert(own_initials(self@.deck));
                assert forall|k: int| 0 <= k < 7 implies fanned(
                    self@.pile_at(#[trigger] spec_tableau_id(k)),
                ) && cards_bounded(self@.pile_at(spec_tableau_id(k)).cards) && own_initials(
                    self@.pile_at(spec_tableau_id(k)),
                ) by {
                    let p = self@.pile_at(spec_tableau_id(k));
                    assert(forall|j: int|
                        0 <= j < p.cards.len() ==> #[trigger] p.cards[j] == dealt_card(
                            deck0,
                            k,
                            j,
                        ));
                }
                assert(self@.pile1 == self@.pile_at(spec_tableau_id(0)));
                assert(self@.pile2 == self@.pile_at(spec_tableau_id(1)));
                assert(self@.pile3 == self@.pile_at(spec_tableau_id(2)));
                assert(self@.pile4 == self@.pile_at(spec_tableau_id(3)));
                assert(self@.pile5 == self@.pile_at(spec_tableau_id(4)));
                assert(self@.pile6 == self@.pile_at(spec_tableau_id(5)));
                assert(self@.pile7 == self@.pile_at(spec_tableau_id(6)));
            }
        }
    }

    /// Creates a new game: the thirteen stable piles at their anchors, a
    /// freshly shuffled full deck loaded face-down and dealt out over the
    /// tableau piles.
    pub fn new(difficulty: Difficulty) -> (s: State)
        ensures
            s.wf(),
            s@.keys_total() == full_deck_keys().to_multiset(),
            !s@.gameOver,
            !s@.mouseDown,
            s@.difficulty == difficulty,
            s@.discard.cards.len() == 0,
            s@.final1.cards.len() == 0,
            s@.final2.cards.len() == 0,
            s@.final3.cards.len() == 0,
            s@.final4.cards.len() == 0,
            s@.grabbedCards.cards.len() == 0,
            forall|i: int|
                0 <= i < 7 ==> s@.pile_at(#[trigger] spec_tableau_id(i)).cards.len() == i + 1,
            forall|i: int, j: int|
                0 <= i < 7 && 0 <= j <= i ==> (s@.pile_at(spec_tableau_id(i)).cards[j].isFaceUp
                    <==> j == i),
            s@.deck.cards.len() == 24,
            forall|j: int| 0 <= j < 24 ==> !(#[trigger] s@.deck.cards[j]).isFaceUp,
    {
        let mut state = State {
            gameOver: false,
            pile1: Pile::new(PILE1_X, PILE_Y, PileIdentifier::Pile1),
            pile2: Pile::new(PILE2_X, PILE_Y, PileIdentifier::Pile2),
            pile3: Pile::new(PILE3_X, PILE_Y, PileIdentifier::Pile3),
            pile4: Pile::new(PILE4_X, PILE_Y, PileIdentifier::Pile4),
            pile5: Pile::new(PILE5_X, PILE_Y, PileIdentifier::Pile5),
            pile6: Pile::new(PILE6_X, PILE_Y, PileIdentifier::Pile6),
            pile7: Pile::new(PILE7_X, PILE_Y, PileIdentifier::Pile7),
            deck: Pile::new(DECK_X, DECK_Y, PileIdentifier::Deck),
            discard: Pile::new(DISCARD_X, DISCARD_Y, PileIdentifier::Discard),
            final1: Pile::new(FINAL1_X, FINAL_Y, PileIdentifier::Final1),
            final2: Pile::new(FINAL2_X, FINAL_Y, PileIdentifier::Final2),
            final3: Pile::new(FINAL3_X, FINAL_Y, PileIdentifier::Final3),
            final4: Pile::new(FINAL4_X, FINAL_Y, PileIdentifier::Final4),
            mouseDown: false,
            grabbedCards: Pile::new(0, 0, PileIdentifier::GrabbedCards),
            difficulty,
        };
        state.newDeck();
        let ghost loaded = state@;
        proof {
            assert(forall|j: int| 0 <= j < 52 ==> !(#[trigger] loaded.deck.cards[j]).isFaceUp);
            assert(flushed(loaded.deck) && cards_bounded(loaded.deck.cards) && own_initials(
                loaded.deck,
            ));
        }
        state.dealCards();
        proof {
            assert(state@.keys_total() =~= full_deck_keys().to_multiset()) by {
                crate::deck::lemma_keys_empty();
                assert(loaded.keys_total() =~= keys_of(loaded.deck.cards));
            }
            assert forall|i: int, j: int| 0 <= i < 7 && 0 <= j <= i implies (state@.pile_at(
                spec_tableau_id(i),
            ).cards[j].isFaceUp <==> j == i) by {
                assert(state@.pile_at(spec_tableau_id(i)).cards[j] == dealt_card(
                    loaded.deck.cards,
                    i,
                    j,
                ));
                assert(0 <= 51 - dealt_before(i) - j < 52);
                assert(!loaded.deck.cards[51 - dealt_before(i) - j].isFaceUp);
            }
            assert(forall|j: int| 0 <= j < 24 ==> !(#[trigger] state@.deck.cards[j]).isFaceUp) by {
                assert(forall|j: int|
                    0 <= j < 24 ==> #[trigger] state@.deck.cards[j] == loaded.deck.cards[j]);
            }
        }
        state
    }
}

/// Law: one draw event on a non-empty deck at Easy difficulty moves
/// exactly one card, face-up, onto the top of the discard pile; the rest
/// of the discard pile and the rest of the deck stay as they were.
pub proof fn lemma_draw_easy(sv: StateView)
    requires
        sv.difficulty == Difficulty::Easy,
        sv.deck.cards.len() > 0,
    ensures
        spec_discard_card(sv).deck.cards == sv.deck.cards.drop_last(),
        spec_discard_card(sv).discard.cards.len() == sv.discard.cards.len() + 1,
        spec_discard_card(sv).discard.cards.last().isFaceUp,
        spec_discard_card(sv).discard.cards.last().key() == sv.deck.cards.last().key(),
        forall|j: int|
            0 <= j < sv.discard.cards.len() ==> spec_discard_card(sv).discard.cards[j]
                == sv.discard.cards[j],
{
}

/// Law: one draw event on a deck holding at least three cards at Hard
/// difficulty moves exactly three cards, each face-up, onto the discard
/// pile, preserving the deck's top-to-bottom order as a stack: the card
/// drawn last lands on top.
pub proof fn lemma_draw_hard(sv: StateView)
    requires
        sv.difficulty == Difficulty::Hard,
        sv.deck.cards.len() >= 3,
    ensures
        spec_discard_card(sv).deck.cards == sv.deck.cards.take(sv.deck.cards.len() - 3),
        spec_discard_card(sv).discard.cards.len() == sv.discard.cards.len() + 3,
        forall|j: int|
            0 <= j < 3 ==> {
                let c = #[trigger] spec_discard_card(sv).discard.cards[sv.discard.cards.len()
                    + j];
                c.isFaceUp && c.key() == sv.deck.cards[sv.deck.cards.len() - 1 - j].key()
            },
        forall|j: int|
            0 <= j < sv.discard.cards.len() ==> spec_discard_card(sv).discard.cards[j]
                == sv.discard.cards[j],
{
    let s1 = spec_draw_step(sv);
    let s2 = spec_draw_step(s1);
    let s3 = spec_draw_step(s2);
    assert(s1.deck.cards.len() == sv.deck.cards.len() - 1);
    assert(s2.deck.cards.len() == sv.deck.cards.len() - 2);
    assert(spec_draw_upto(sv, 3) == spec_draw_upto(s1, 2));
    assert(spec_draw_upto(s1, 2) == spec_draw_upto(s2, 1));
    assert(spec_draw_upto(s2, 1) == spec_draw_upto(s3, 0));
    assert(spec_draw_upto(s3, 0) == s3);
    assert(spec_discard_card(sv) == s3);
    assert(s3.deck.cards =~= sv.deck.cards.take(sv.deck.cards.len() - 3));
}

/// In a well-formed state every pile is itself well-formed: its anchor in
/// range, at most a full deck of cards, every card in range.
pub proof fn lemma_pile_wf(s: State, id: PileIdentifier)
    requires
        s.wf(),
    ensures
        s.spec_pile(id).wf(),
        s.spec_pile(id)@ == s@.pile_at(id),
{
}

/// Law: the game-over flag flips to true exactly when all four foundation
/// piles simultaneously hold thirteen cards; and once it is true, a tick
/// never resets it, even on a state whose foundation piles were emptied
/// again.
pub proof fn lemma_win_condition(sv: StateView)
    ensures
        !sv.gameOver ==> (spec_update(sv).gameOver <==> sv.all_foundations_full()),
        sv.gameOver ==> spec_update(sv) == sv,
        sv.gameOver ==> spec_update(sv).gameOver,
{
}

} // verus!
