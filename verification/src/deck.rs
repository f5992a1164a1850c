//! The deck generator: produces a full, randomly permuted 52-card deck,
//! exactly one card per suit-and-rank pair, each freshly constructed
//! face-down.

#![allow(non_snake_case)]

use vstd::prelude::*;
use vstd::multiset::Multiset;

use crate::card::{Card, CardView, PileIdentifier, Rank, Suit};

verus! {

/// The suit at a given position of the canonical suit order.
pub open spec fn spec_suit_of_index(i: int) -> Suit {
    if i == 0 {
        Suit::Heart
    } else if i == 1 {
        Suit::Diamond
    } else if i == 2 {
        Suit::Club
    } else {
        Suit::Spade
    }
}

/// The rank at a given position of the linear order Ace = 0 .. King = 12.
pub open spec fn spec_rank_of_index(i: int) -> Rank {
    if i == 0 {
        Rank::Ace
    } else if i == 1 {
        Rank::Two
    } else if i == 2 {
        Rank::Three
    } else if i == 3 {
        Rank::Four
    } else if i == 4 {
        Rank::Five
    } else if i == 5 {
        Rank::Six
    } else if i == 6 {
        Rank::Seven
    } else if i == 7 {
        Rank::Eight
    } else if i == 8 {
        Rank::Nine
    } else if i == 9 {
        Rank::Ten
    } else if i == 10 {
        Rank::Jack
    } else if i == 11 {
        Rank::Queen
    } else {
        Rank::King
    }
}

/// The 52 suit-and-rank pairs in canonical order: each suit in turn, each
/// rank from Ace to King within it.
pub open spec fn full_deck_keys() -> Seq<(Suit, Rank)> {
    Seq::new(52, |i: int| (spec_suit_of_index(i / 13), spec_rank_of_index(i % 13)))
}

/// The multiset of suit-and-rank pairs held by a sequence of cards.
pub open spec fn keys_of(cards: Seq<CardView>) -> Multiset<(Suit, Rank)> {
    cards.map_values(|c: CardView| c.key()).to_multiset()
}

/// A freshly constructed card of the given suit and rank: face-down at the
/// origin, recorded as belonging to the deck.
pub open spec fn fresh_card(suit: Suit, rank: Rank) -> CardView {
    CardView {
        x: 0,
        y: 0,
        initialX: 0,
        initialY: 0,
        initialPile: PileIdentifier::Deck,
        isFaceUp: false,
        suit,
        rank,
    }
}

fn suit_of_index(i: usize) -> (s: Suit)
    requires
        i < 4,
    ensures
        s == spec_suit_of_index(i as int),
{
    if i == 0 {
        Suit::Heart
    } else if i == 1 {
        Suit::Diamond
    } else if i == 2 {
        Suit::Club
    } else {
        Suit::Spade
    }
}

fn rank_of_index(i: usize) -> (r: Rank)
    requires
        i < 13,
    ensures
        r == spec_rank_of_index(i as int),
{
    if i == 0 {
        Rank::Ace
    } else if i == 1 {
        Rank::Two
    } else if i == 2 {
        Rank::Three
    } else if i == 3 {
        Rank::Four
    } else if i == 4 {
        Rank::Five
    } else if i == 5 {
        Rank::Six
    } else if i == 6 {
        Rank::Seven
    } else if i == 7 {
        Rank::Eight
    } else if i == 8 {
        Rank::Nine
    } else if i == 9 {
        Rank::Ten
    } else if i == 10 {
        Rank::Jack
    } else if i == 11 {
        Rank::Queen
    } else {
        Rank::King
    }
}

/// Appending a card inserts its suit-and-rank pair into the key multiset.
pub proof fn lemma_keys_push(s: Seq<CardView>, c: CardView)
    ensures
        keys_of(s.push(c)) == keys_of(s).insert(c.key()),
{
    broadcast use vstd::seq_lib::group_to_multiset_ensures;

    assert(s.push(c).map_values(|cc: CardView| cc.key()) =~= s.map_values(
        |cc: CardView| cc.key(),
    ).push(c.key()));
}

/// Removing the top card takes its suit-and-rank pair out of the key
/// multiset.
pub proof fn lemma_keys_drop_last(s: Seq<CardView>)
    requires
        s.len() > 0,
    ensures
        keys_of(s) == keys_of(s.drop_last()).insert(s.last().key()),
{
    broadcast use vstd::seq_lib::group_to_multiset_ensures;

    assert(s.drop_last().map_values(|cc: CardView| cc.key()).push(s.last().key()) =~= s.map_values(
        |cc: CardView| cc.key(),
    ));
}

/// An empty sequence of cards holds the empty key multiset.
pub proof fn lemma_keys_empty()
    ensures
        keys_of(Seq::<CardView>::empty()) == Multiset::<(Suit, Rank)>::empty(),
{
    broadcast use vstd::seq_lib::group_to_multiset_ensures;

    assert(Seq::<CardView>::empty().map_values(|cc: CardView| cc.key()) =~= Seq::<(
        Suit,
        Rank,
    )>::empty());
    assert(keys_of(Seq::<CardView>::empty()) =~= Multiset::<(Suit, Rank)>::empty());
}

/// Reversing a sequence of cards leaves its key multiset unchanged.
pub proof fn lemma_keys_reverse(s: Seq<CardView>)
    ensures
        keys_of(s.reverse()) == keys_of(s),
{
    assert(s.reverse().map_values(|cc: CardView| cc.key()) =~= s.map_values(
        |cc: CardView| cc.key(),
    ).reverse());
    s.map_values(|cc: CardView| cc.key()).lemma_reverse_to_multiset();
}

/// Removing the first card takes its suit-and-rank pair out of the key
/// multiset.
pub proof fn lemma_keys_drop_first(s: Seq<CardView>)
    requires
        s.len() > 0,
    ensures
        keys_of(s) == keys_of(s.drop_first()).insert(s.first().key()),
{
    assert(s.reverse() =~= s.drop_first().reverse().push(s.first()));
    lemma_keys_push(s.drop_first().reverse(), s.first());
    lemma_keys_reverse(s);
    lemma_keys_reverse(s.drop_first());
}

/// Relies on rand's `SliceRandom::shuffle` with `thread_rng`: it permutes
/// the slice in place by swaps (a Fisher-Yates shuffle), so the result
/// holds exactly the same cards, rearranged. Nothing is stated about the
/// order that comes out: it depends on a non-deterministically seeded
/// process-wide generator.
#[verifier::external_body]
fn shuffle_cards(cards: &mut Vec<Card>)
    ensures
        final(cards)@.len() == old(cards)@.len(),
        final(cards)@.to_multiset() == old(cards)@.to_multiset(),
        final(cards)@.map_values(|c: Card| c@.key()).to_multiset() == old(cards)@.map_values(
            |c: Card| c@.key(),
        ).to_multiset(),
{
    rand::seq::SliceRandom::shuffle(cards.as_mut_slice(), &mut rand::thread_rng());
}

/// Generates a full deck of 52 cards, one per suit-and-rank pair, each
/// freshly constructed face-down, and then shuffles it.
pub fn newDeck() -> (v: Vec<Card>)
    ensures
        v@.len() == 52,
        keys_of(v@.map_values(|c: Card| c@)) == full_deck_keys().to_multiset(),
        forall|i: int|
            0 <= i < 52 ==> (#[trigger] v@[i])@ == fresh_card(v@[i]@.suit, v@[i]@.rank),
{
    broadcast use vstd::seq_lib::group_to_multiset_ensures;

    let mut v: Vec<Card> = Vec::new();
    proof {
        assert(v@.map_values(|c: Card| c@.key()) =~= full_deck_keys().take(0));
    }
    for s in 0usize..4
        invariant
            v@.len() == 13 * s,
            v@.map_values(|c: Card| c@.key()) == full_deck_keys().take(13 * s),
            forall|i: int|
                0 <= i < v@.len() ==> (#[trigger] v@[i])@ == fresh_card(v@[i]@.suit, v@[i]@.rank),
    {
        for r in 0usize..13
            invariant
                s < 4,
                v@.len() == 13 * s + r,
                v@.map_values(|c: Card| c@.key()) == full_deck_keys().take(13 * s + r),
                forall|i: int|
                    0 <= i < v@.len() ==> (#[trigger] v@[i])@ == fresh_card(
                        v@[i]@.suit,
                        v@[i]@.rank,
                    ),
        {
            let ghost n = v@.len() as int;
            let c = Card::new(suit_of_index(s), rank_of_index(r));
            v.push(c);
            proof {
                assert((13 * s + r) / 13 == s as int && (13 * s + r) % 13 == r as int) by (nonlinear_arith)
                    requires
                        s < 4 && r < 13,
                ;
                assert(v@.map_values(|cc: Card| cc@.key()) =~= full_deck_keys().take(n + 1));
            }
        }
    }
    proof {
        assert(full_deck_keys().take(52) =~= full_deck_keys());
    }
    let ghost before = v@;
    shuffle_cards(&mut v);
    proof {
        // every card of the shuffled deck already lay in the generated one
        assert forall|i: int| 0 <= i < 52 implies (#[trigger] v@[i])@ == fresh_card(
            v@[i]@.suit,
            v@[i]@.rank,
        ) by {
            assert(v@.to_multiset().count(v@[i]) > 0);
            assert(before.contains(v@[i]));
        }
        assert(keys_of(v@.map_values(|c: Card| c@)) =~= v@.map_values(|c: Card| c@.key()).to_multiset()) by {
            assert(v@.map_values(|c: Card| c@).map_values(|c: CardView| c.key()) =~= v@.map_values(
                |c: Card| c@.key(),
            ));
        }
        assert(keys_of(before.map_values(|c: Card| c@)) =~= before.map_values(|c: Card| c@.key()).to_multiset()) by {
            assert(before.map_values(|c: Card| c@).map_values(|c: CardView| c.key())
                =~= before.map_values(|c: Card| c@.key()));
        }
    }
    v
}

} // verus!
