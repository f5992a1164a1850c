//! The stacking rule engine: pure predicates deciding whether a card may
//! land on a foundation pile or on a tableau pile.

#![allow(non_snake_case)]

use vstd::prelude::*;

use crate::card::{suit_color, rank_value, Card, CardView, Rank};
use crate::pile::Pile;

verus! {

/// A foundation pile accepts a card when the pile is empty and the card is
/// an Ace, or when the card has the top card's suit and the next rank up.
pub open spec fn foundation_accepts(c: CardView, top: Option<CardView>) -> bool {
    match top {
        Option::None => c.rank == Rank::Ace,
        Option::Some(t) => c.suit == t.suit && rank_value(c.rank) == rank_value(t.rank) + 1,
    }
}

/// A tableau pile accepts a card when the pile is empty and the card is a
/// King, or when the card's color differs from the top card's color and its
/// rank is the next rank down.
pub open spec fn tableau_accepts(c: CardView, top: Option<CardView>) -> bool {
    match top {
        Option::None => c.rank == Rank::King,
        Option::Some(t) => suit_color(c.suit) != suit_color(t.suit) && rank_value(c.rank)
            == rank_value(t.rank) - 1,
    }
}

/// Checks if a given card may be stacked on a given foundation pile.
pub fn stackableCheckForFinal(card: &Card, pile: &Pile) -> (r: bool)
    ensures
        r == foundation_accepts(card@, pile@.top()),
{
    match pile.getTopCard() {
        Option::None => card.rank == Rank::Ace,
        Option::Some(t) => card.suit == t.suit && card.rank.value() == t.rank.value() + 1,
    }
}

/// Checks if a given card may be stacked on a given tableau pile.
pub fn stackableCheckForPile(card: &Card, pile: &Pile) -> (r: bool)
    ensures
        r == tableau_accepts(card@, pile@.top()),
{
    match pile.getTopCard() {
        Option::None => card.rank == Rank::King,
        Option::Some(t) => card.suit.getColor() != t.suit.getColor() && card.rank.value() + 1
            == t.rank.value(),
    }
}

/// Every rank sits between Ace and King in the linear order.
pub proof fn lemma_rank_value_range(r: Rank)
    ensures
        0 <= rank_value(r) <= 12,
{
}

/// Law: an empty foundation pile accepts exactly the Aces, of any suit, and
/// rejects every other rank.
pub proof fn lemma_foundation_empty_accepts_only_ace(c: CardView)
    ensures
        foundation_accepts(c, Option::None) <==> c.rank == Rank::Ace,
{
}

/// Law: a foundation pile topped by a card of suit S and rank R accepts
/// exactly the card of suit S with the next rank up; it rejects any other
/// suit, the same rank, and every lower rank. Nothing follows a King.
pub proof fn lemma_foundation_sequence(c: CardView, t: CardView)
    ensures
        foundation_accepts(c, Option::Some(t)) <==> (c.suit == t.suit && rank_value(c.rank)
            == rank_value(t.rank) + 1),
        c.suit != t.suit ==> !foundation_accepts(c, Option::Some(t)),
        rank_value(c.rank) <= rank_value(t.rank) ==> !foundation_accepts(c, Option::Some(t)),
        t.rank == Rank::King ==> !foundation_accepts(c, Option::Some(t)),
{
    lemma_rank_value_range(c.rank);
}

/// Law: an empty tableau pile accepts exactly the Kings, of any suit, and
/// rejects every other rank.
pub proof fn lemma_tableau_empty_accepts_only_king(c: CardView)
    ensures
        tableau_accepts(c, Option::None) <==> c.rank == Rank::King,
{
}

/// Law: a tableau pile topped by a card of color C and rank R accepts
/// exactly the cards of the opposite color with the next rank down; it
/// rejects the same color, the same rank, and every other rank.
pub proof fn lemma_tableau_alternating_color(c: CardView, t: CardView)
    ensures
        tableau_accepts(c, Option::Some(t)) <==> (suit_color(c.suit) != suit_color(t.suit)
            && rank_value(c.rank) == rank_value(t.rank) - 1),
        suit_color(c.suit) == suit_color(t.suit) ==> !tableau_accepts(c, Option::Some(t)),
        rank_value(c.rank) != rank_value(t.rank) - 1 ==> !tableau_accepts(c, Option::Some(t)),
{
}

} // verus!
