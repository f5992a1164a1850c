//! An ordered collection of cards with placement rules for appending and
//! removing, with or without positional offset, and its mathematical view.

#![allow(non_snake_case)]

use vstd::prelude::*;

use crate::card::{Card, CardView, PileIdentifier};
use crate::coordinates::{ANCHOR_LIMIT, POS_LIMIT};

verus! {

/// The vertical distance between successive cards of a fanned pile, in
/// half-pixel units.
pub const CARD_OFFSET: i64 = 25;

/// The most cards a pile can ever hold: a full deck.
pub const MAX_PILE_SIZE: usize = 52;

/// A pile of cards. The last element of `cards` is the top, frontmost card.
#[derive(Clone, Debug)]
pub struct Pile {
    /// The x coordinate of the pile.
    pub x: i64,
    /// The y coordinate of the pile.
    pub y: i64,
    /// The pile identifier.
    pub identifier: PileIdentifier,
    /// The cards in the pile.
    pub cards: Vec<Card>,
}

/// The mathematical view of a pile.
#[verifier::ext_equal]
pub ghost struct PileView {
    pub x: int,
    pub y: int,
    pub identifier: PileIdentifier,
    pub cards: Seq<CardView>,
}

impl View for Pile {
    type V = PileView;

    open spec fn view(&self) -> PileView {
        PileView {
            x: self.x as int,
            y: self.y as int,
            identifier: self.identifier,
            cards: self.cards@.map_values(|c: Card| c@),
        }
    }
}

/// The given card as placed by an offset append: moved to the anchor plus
/// the fan-out offset for position `idx`, with that position and the pile
/// recorded as its stable origin.
pub open spec fn offset_card(c: CardView, x: int, y: int, idx: int, id: PileIdentifier) -> CardView {
    CardView {
        x: x,
        y: y + idx * CARD_OFFSET,
        initialX: x,
        initialY: y + idx * CARD_OFFSET,
        initialPile: id,
        ..c
    }
}

/// The given card as placed by a flush append: moved exactly to the anchor,
/// with the anchor and the pile recorded as its stable origin.
pub open spec fn flush_card(c: CardView, x: int, y: int, id: PileIdentifier) -> CardView {
    CardView { x: x, y: y, initialX: x, initialY: y, initialPile: id, ..c }
}

/// The given card as placed into the transient grabbed pile: moved to the
/// anchor plus the fan-out offset for position `idx`, with its stable
/// origin left untouched.
pub open spec fn grabbed_card(c: CardView, x: int, y: int, idx: int) -> CardView {
    CardView { x: x, y: y + idx * CARD_OFFSET, ..c }
}

impl PileView {
    /// The pile after an offset append of the given card.
    pub open spec fn add_offset(self, c: CardView) -> PileView {
        PileView {
            cards: self.cards.push(
                offset_card(c, self.x, self.y, self.cards.len() as int, self.identifier),
            ),
            ..self
        }
    }

    /// The pile after a flush append of the given card.
    pub open spec fn add_flush(self, c: CardView) -> PileView {
        PileView { cards: self.cards.push(flush_card(c, self.x, self.y, self.identifier)), ..self }
    }

    /// The pile after a transient append of the given card.
    pub open spec fn add_grabbed(self, c: CardView) -> PileView {
        PileView {
            cards: self.cards.push(grabbed_card(c, self.x, self.y, self.cards.len() as int)),
            ..self
        }
    }

    /// The pile with its top card removed.
    pub open spec fn drop_top(self) -> PileView {
        PileView { cards: self.cards.drop_last(), ..self }
    }

    /// The pile with its card sequence replaced.
    pub open spec fn with_cards(self, cards: Seq<CardView>) -> PileView {
        PileView { cards, ..self }
    }

    /// The top card, if the pile is not empty.
    pub open spec fn top(self) -> Option<CardView> {
        if self.cards.len() == 0 {
            None
        } else {
            Some(self.cards.last())
        }
    }
}

impl Pile {
    /// A pile is well-formed when its anchor lies within the model's
    /// coordinate range, it holds at most a full deck of cards, and every
    /// card's position lies within the model's coordinate range.
    pub open spec fn wf(self) -> bool {
        &&& -ANCHOR_LIMIT <= self@.x <= ANCHOR_LIMIT
        &&& -ANCHOR_LIMIT <= self@.y <= ANCHOR_LIMIT
        &&& self@.cards.len() <= MAX_PILE_SIZE
        &&& forall|i: int|
            0 <= i < self@.cards.len() ==> {
                &&& -POS_LIMIT <= (#[trigger] self@.cards[i]).x <= POS_LIMIT
                &&& -POS_LIMIT <= self@.cards[i].y <= POS_LIMIT
            }
    }

    /// Creates a new, empty pile with the given identifier, anchored at the
    /// given coordinates.
    pub fn new(x: i64, y: i64, identifier: PileIdentifier) -> (p: Pile)
        ensures
            p@ == (PileView { x: x as int, y: y as int, identifier, cards: Seq::empty() }),
            -ANCHOR_LIMIT <= x <= ANCHOR_LIMIT && -ANCHOR_LIMIT <= y <= ANCHOR_LIMIT ==> p.wf(),
    {
        let p = Pile { x, y, identifier, cards: Vec::new() };
        proof {
            assert(p@.cards =~= Seq::<CardView>::empty());
        }
        p
    }

    /// Adds a card to the pile WITH offset: the card's position, initial
    /// position and initial pile all change.
    pub fn addCard(&mut self, card: Card)
        requires
            old(self).wf(),
            old(self)@.cards.len() < MAX_PILE_SIZE,
        ensures
            final(self)@ == old(self)@.add_offset(card@),
            final(self).wf(),
    {
        let mut card = card;
        let index = self.cards.len();
        card.x = self.x;
        card.y = self.y + (index as i64) * CARD_OFFSET;
        card.initialX = card.x;
        card.initialY = card.y;
        card.initialPile = self.identifier;
        self.cards.push(card);
        proof {
            assert(self@.cards =~= old(self)@.add_offset(card@).cards);
            assert(self@ =~= old(self)@.add_offset(card@));
        }
    }

    /// Adds a card to the pile WITHOUT offset: the card's position, initial
    /// position and initial pile all change.
    pub fn addNoOffset(&mut self, card: Card)
        requires
            old(self).wf(),
            old(self)@.cards.len() < MAX_PILE_SIZE,
        ensures
            final(self)@ == old(self)@.add_flush(card@),
            final(self).wf(),
    {
        let mut card = card;
        card.x = self.x;
        card.y = self.y;
        card.initialX = self.x;
        card.initialY = self.y;
        card.initialPile = self.identifier;
        self.cards.push(card);
        proof {
            assert(self@.cards =~= old(self)@.add_flush(card@).cards);
            assert(self@ =~= old(self)@.add_flush(card@));
        }
    }

    /// Adds a card to the grabbed pile WITH offset: the card's position
    /// changes but its initial position and initial pile do NOT.
    pub fn addToGrabbed(&mut self, card: Card)
        requires
            old(self).wf(),
            old(self)@.cards.len() < MAX_PILE_SIZE,
        ensures
            final(self)@ == old(self)@.add_grabbed(card@),
            final(self).wf(),
    {
        let mut card = card;
        let index = self.cards.len();
        card.x = self.x;
        card.y = self.y + (index as i64) * CARD_OFFSET;
        self.cards.push(card);
        proof {
            assert(self@.cards =~= old(self)@.add_grabbed(card@).cards);
            assert(self@ =~= old(self)@.add_grabbed(card@));
        }
    }

    /// Removes the top card of the pile, or returns nothing when the pile
    /// is empty.
    pub fn removeCard(&mut self) -> (r: Option<Card>)
        ensures
            match r {
                Option::None => old(self)@.cards.len() == 0 && final(self)@ == old(self)@,
                Option::Some(c) => {
                    &&& old(self)@.cards.len() > 0
                    &&& c@ == old(self)@.cards.last()
                    &&& final(self)@ == old(self)@.drop_top()
                },
            },
            old(self).wf() ==> final(self).wf(),
    {
        let r = self.cards.pop();
        proof {
            if old(self).cards@.len() > 0 {
                assert(self@.cards =~= old(self)@.drop_top().cards);
                assert(self@ =~= old(self)@.drop_top());
            } else {
                assert(self@ =~= old(self)@);
            }
        }
        r
    }

    /// Removes all cards from the pile and returns them, top card first.
    pub fn removeCards(&mut self) -> (r: Vec<Card>)
        ensures
            r@.map_values(|c: Card| c@) == old(self)@.cards.reverse(),
            final(self)@ == old(self)@.with_cards(Seq::empty()),
            old(self).wf() ==> final(self).wf(),
    {
        let ghost allv = self.cards@;
        let mut cards: Vec<Card> = Vec::new();
        while !self.cards.is_empty()
            invariant
                self.x == old(self).x,
                self.y == old(self).y,
                self.identifier == old(self).identifier,
                self.cards@.len() <= allv.len(),
                self.cards@ == allv.take(self.cards@.len() as int),
                cards@ == allv.skip(self.cards@.len() as int).reverse(),
            decreases self.cards@.len(),
        {
            let ghost n = self.cards@.len() as int;
            let c = self.cards.pop().unwrap();
            cards.push(c);
            proof {
                assert(self.cards@ =~= allv.take(n - 1));
                assert(cards@ =~= allv.skip(n - 1).reverse()) by {
                    assert(allv.skip(n - 1).reverse() =~= allv.skip(n).reverse().push(allv[n - 1]));
                }
            }
        }
        proof {
            assert(cards@ =~= allv.reverse()) by {
                assert(allv.skip(0) =~= allv);
            }
            assert(cards@.map_values(|c: Card| c@) =~= old(self)@.cards.reverse()) by {
                assert(forall|i: int|
                    0 <= i < allv.len() ==> allv.reverse()[i] == allv[allv.len() - 1 - i]
                        && #[trigger] old(self)@.cards.reverse()[i] == old(self)@.cards[allv.len()
                        - 1 - i]);
            }
            assert(self@.cards =~= Seq::<CardView>::empty());
            assert(self@ =~= old(self)@.with_cards(Seq::empty()));
        }
        cards
    }

    /// Returns a reference to the top card of the pile, if any.
    pub fn getTopCard(&self) -> (r: Option<&Card>)
        ensures
            match r {
                Option::None => self@.cards.len() == 0,
                Option::Some(c) => self@.cards.len() > 0 && c@ == self@.cards.last(),
            },
    {
        self.cards.last()
    }

    /// Returns a reference to the card with the given index, if it exists.
    pub fn getCardByIndex(&self, index: usize) -> (r: Option<&Card>)
        ensures
            match r {
                Option::None => index >= self@.cards.len(),
                Option::Some(c) => index < self@.cards.len() && c@ == self@.cards[index as int],
            },
    {
        self.cards.get(index)
    }

    /// Flips the top card; does nothing when the pile is empty.
    pub fn flipTopCard(&mut self)
        ensures
            old(self)@.cards.len() == 0 ==> final(self)@ == old(self)@,
            old(self)@.cards.len() > 0 ==> final(self)@ == old(self)@.with_cards(
                old(self)@.cards.update(
                    old(self)@.cards.len() - 1,
                    (CardView { isFaceUp: !old(self)@.cards.last().isFaceUp, ..old(self)@.cards.last() }),
                ),
            ),
            old(self).wf() ==> final(self).wf(),
    {
        if self.cards.len() != 0 {
            let index = self.cards.len() - 1;
            let mut c = self.cards.pop().unwrap();
            c.flip();
            self.cards.push(c);
            proof {
                assert(self@.cards =~= old(self)@.cards.update(
                    old(self)@.cards.len() - 1,
                    (CardView { isFaceUp: !old(self)@.cards.last().isFaceUp, ..old(self)@.cards.last() }),
                ));
                assert(self@ =~= old(self)@.with_cards(self@.cards));
            }
        }
    }

    /// Returns the number of cards in the pile.
    pub fn size(&self) -> (n: usize)
        ensures
            n == self@.cards.len(),
    {
        self.cards.len()
    }

    /// Checks if the pile is empty.
    pub fn empty(&self) -> (b: bool)
        ensures
            b == (self@.cards.len() == 0),
    {
        self.cards.is_empty()
    }
}

/// Repeated offset appending of a sequence of cards, first element first.
pub open spec fn add_offset_all(p: PileView, cs: Seq<CardView>) -> PileView
    decreases cs.len(),
{
    if cs.len() == 0 {
        p
    } else {
        add_offset_all(p.add_offset(cs.first()), cs.drop_first())
    }
}

/// Repeated flush appending of a sequence of cards, first element first.
pub open spec fn add_flush_all(p: PileView, cs: Seq<CardView>) -> PileView
    decreases cs.len(),
{
    if cs.len() == 0 {
        p
    } else {
        add_flush_all(p.add_flush(cs.first()), cs.drop_first())
    }
}

/// Appending one more card commutes with the fold of offset appends.
pub proof fn lemma_add_offset_all_push(p: PileView, cs: Seq<CardView>, c: CardView)
    ensures
        add_offset_all(p, cs.push(c)) == add_offset_all(p, cs).add_offset(c),
    decreases cs.len(),
{
    assert(add_offset_all(p, cs.push(c)) == add_offset_all(
        p.add_offset(cs.push(c).first()),
        cs.push(c).drop_first(),
    ));
    if cs.len() == 0 {
        assert(cs.push(c).drop_first() =~= Seq::<CardView>::empty());
        assert(cs.push(c).first() == c);
        assert(add_offset_all(p.add_offset(c), Seq::<CardView>::empty()) == p.add_offset(c));
        assert(add_offset_all(p, cs) == p);
    } else {
        assert(cs.push(c).first() == cs.first());
        assert(cs.push(c).drop_first() =~= cs.drop_first().push(c));
        lemma_add_offset_all_push(p.add_offset(cs.first()), cs.drop_first(), c);
        assert(add_offset_all(p, cs) == add_offset_all(p.add_offset(cs.first()), cs.drop_first()));
    }
}

/// Appending one more card commutes with the fold of flush appends.
pub proof fn lemma_add_flush_all_push(p: PileView, cs: Seq<CardView>, c: CardView)
    ensures
        add_flush_all(p, cs.push(c)) == add_flush_all(p, cs).add_flush(c),
    decreases cs.len(),
{
    assert(add_flush_all(p, cs.push(c)) == add_flush_all(
        p.add_flush(cs.push(c).first()),
        cs.push(c).drop_first(),
    ));
    if cs.len() == 0 {
        assert(cs.push(c).drop_first() =~= Seq::<CardView>::empty());
        assert(cs.push(c).first() == c);
        assert(add_flush_all(p.add_flush(c), Seq::<CardView>::empty()) == p.add_flush(c));
        assert(add_flush_all(p, cs) == p);
    } else {
        assert(cs.push(c).first() == cs.first());
        assert(cs.push(c).drop_first() =~= cs.drop_first().push(c));
        lemma_add_flush_all_push(p.add_flush(cs.first()), cs.drop_first(), c);
        assert(add_flush_all(p, cs) == add_flush_all(p.add_flush(cs.first()), cs.drop_first()));
    }
}

/// Law: offset placement fans cards out. If every card already in the pile
/// sits at the anchor shifted down by its index times the offset, then
/// after appending any run of cards with offset placement, every card of
/// the pile does: card `i` sits at `(x, y + i * CARD_OFFSET)`.
pub proof fn lemma_offset_placement(p: PileView, cs: Seq<CardView>)
    requires
        forall|i: int|
            0 <= i < p.cards.len() ==> (#[trigger] p.cards[i]).x == p.x && p.cards[i].y == p.y + i
                * CARD_OFFSET,
    ensures
        add_offset_all(p, cs).cards.len() == p.cards.len() + cs.len(),
        forall|i: int|
            0 <= i < p.cards.len() + cs.len() ==> {
                &&& (#[trigger] add_offset_all(p, cs).cards[i]).x == p.x
                &&& add_offset_all(p, cs).cards[i].y == p.y + i * CARD_OFFSET
            },
    decreases cs.len(),
{
    if cs.len() > 0 {
        lemma_offset_placement(p.add_offset(cs.first()), cs.drop_first());
    }
}

/// Law: flush placement stacks cards exactly at the anchor. If every card
/// already in the pile sits at the anchor, then after appending any run of
/// cards with flush placement, every card of the pile sits exactly at
/// `(x, y)`, no matter how many cards there are.
pub proof fn lemma_flush_placement(p: PileView, cs: Seq<CardView>)
    requires
        forall|i: int|
            0 <= i < p.cards.len() ==> (#[trigger] p.cards[i]).x == p.x && p.cards[i].y == p.y,
    ensures
        add_flush_all(p, cs).cards.len() == p.cards.len() + cs.len(),
        forall|i: int|
            0 <= i < p.cards.len() + cs.len() ==> {
                &&& (#[trigger] add_flush_all(p, cs).cards[i]).x == p.x
                &&& add_flush_all(p, cs).cards[i].y == p.y
            },
    decreases cs.len(),
{
    if cs.len() > 0 {
        lemma_flush_placement(p.add_flush(cs.first()), cs.drop_first());
    }
}

} // verus!
