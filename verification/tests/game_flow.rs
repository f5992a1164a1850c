use solitaire::card::{Card, PileIdentifier, Rank, Suit};
use solitaire::coordinates::{
    DECK_X, DECK_Y, DISCARD_X, DISCARD_Y, FINAL1_X, FINAL2_X, FINAL3_X, FINAL4_X, FINAL_Y,
    PILE1_X, PILE2_X, PILE3_X, PILE4_X, PILE5_X, PILE6_X, PILE7_X, PILE_Y,
};
use solitaire::pile::{Pile, CARD_OFFSET};
use solitaire::state::{Difficulty, State};

fn ranks() -> Vec<Rank> {
    vec![
        Rank::Ace,
        Rank::Two,
        Rank::Three,
        Rank::Four,
        Rank::Five,
        Rank::Six,
        Rank::Seven,
        Rank::Eight,
        Rank::Nine,
        Rank::Ten,
        Rank::Jack,
        Rank::Queen,
        Rank::King,
    ]
}

fn suits() -> Vec<Suit> {
    vec![Suit::Heart, Suit::Diamond, Suit::Club, Suit::Spade]
}

/// An unshuffled table: every card face-down in the deck, in suit order,
/// everything else empty.
fn state_with_full_deck(difficulty: Difficulty) -> State {
    let mut deck = Pile::new(DECK_X, DECK_Y, PileIdentifier::Deck);
    for s in suits() {
        for r in ranks() {
            deck.addNoOffset(Card::new(s, r));
        }
    }
    State {
        gameOver: false,
        pile1: Pile::new(PILE1_X, PILE_Y, PileIdentifier::Pile1),
        pile2: Pile::new(PILE2_X, PILE_Y, PileIdentifier::Pile2),
        pile3: Pile::new(PILE3_X, PILE_Y, PileIdentifier::Pile3),
        pile4: Pile::new(PILE4_X, PILE_Y, PileIdentifier::Pile4),
        pile5: Pile::new(PILE5_X, PILE_Y, PileIdentifier::Pile5),
        pile6: Pile::new(PILE6_X, PILE_Y, PileIdentifier::Pile6),
        pile7: Pile::new(PILE7_X, PILE_Y, PileIdentifier::Pile7),
        deck,
        discard: Pile::new(DISCARD_X, DISCARD_Y, PileIdentifier::Discard),
        final1: Pile::new(FINAL1_X, FINAL_Y, PileIdentifier::Final1),
        final2: Pile::new(FINAL2_X, FINAL_Y, PileIdentifier::Final2),
        final3: Pile::new(FINAL3_X, FINAL_Y, PileIdentifier::Final3),
        final4: Pile::new(FINAL4_X, FINAL_Y, PileIdentifier::Final4),
        mouseDown: false,
        grabbedCards: Pile::new(0, 0, PileIdentifier::GrabbedCards),
        difficulty,
    }
}

fn tableau<'a>(s: &'a State, i: usize) -> &'a Pile {
    match i {
        0 => &s.pile1,
        1 => &s.pile2,
        2 => &s.pile3,
        3 => &s.pile4,
        4 => &s.pile5,
        5 => &s.pile6,
        _ => &s.pile7,
    }
}

#[test]
fn dealing_fans_out_the_tableau() {
    let s = State::new(Difficulty::Easy);
    for i in 0..7 {
        let p = tableau(&s, i);
        assert_eq!(p.size(), i + 1);
        for (j, c) in p.cards.iter().enumerate() {
            assert_eq!(c.isFaceUp, j == i);
            assert_eq!(c.x, p.x);
            assert_eq!(c.y, p.y + (j as i64) * CARD_OFFSET);
        }
    }
    assert_eq!(s.deck.size(), 24);
    for c in &s.deck.cards {
        assert!(!c.isFaceUp);
    }
    assert!(s.discard.empty());
    assert!(s.final1.empty() && s.final2.empty() && s.final3.empty() && s.final4.empty());
    assert!(s.grabbedCards.empty());
    assert!(!s.gameOver);
    assert!(!s.mouseDown);
}

#[test]
fn easy_draw_moves_one_card_face_up() {
    let mut s = state_with_full_deck(Difficulty::Easy);
    let old_top = *s.deck.getTopCard().unwrap();
    s.mouse_button_down_event(DECK_X + 1, DECK_Y + 1);
    assert_eq!(s.deck.size(), 51);
    assert_eq!(s.discard.size(), 1);
    let moved = s.discard.getTopCard().unwrap();
    assert!(moved.isFaceUp);
    assert_eq!(moved.suit, old_top.suit);
    assert_eq!(moved.rank, old_top.rank);
    assert_eq!(moved.x, DISCARD_X);
    assert_eq!(moved.y, DISCARD_Y);
    assert!(s.mouseDown);
}

#[test]
fn hard_draw_moves_three_cards_preserving_order() {
    let mut s = state_with_full_deck(Difficulty::Hard);
    let n = s.deck.size();
    let t1 = *s.deck.getCardByIndex(n - 1).unwrap();
    let t2 = *s.deck.getCardByIndex(n - 2).unwrap();
    let t3 = *s.deck.getCardByIndex(n - 3).unwrap();
    s.mouse_button_down_event(DECK_X + 1, DECK_Y + 1);
    assert_eq!(s.deck.size(), n - 3);
    assert_eq!(s.discard.size(), 3);
    // the card drawn first lies lowest, the card drawn last on top
    assert_eq!(s.discard.cards[0].rank, t1.rank);
    assert_eq!(s.discard.cards[0].suit, t1.suit);
    assert_eq!(s.discard.cards[1].rank, t2.rank);
    assert_eq!(s.discard.cards[1].suit, t2.suit);
    assert_eq!(s.discard.cards[2].rank, t3.rank);
    assert_eq!(s.discard.cards[2].suit, t3.suit);
    for c in &s.discard.cards {
        assert!(c.isFaceUp);
    }
}

#[test]
fn hard_draw_takes_fewer_when_the_deck_runs_out() {
    let mut s = state_with_full_deck(Difficulty::Hard);
    // leave two cards in the deck, the rest on a foundation pile
    while s.deck.size() > 2 {
        let c = s.deck.removeCard().unwrap();
        s.final1.addNoOffset(c);
    }
    s.mouse_button_down_event(DECK_X + 1, DECK_Y + 1);
    assert_eq!(s.deck.size(), 0);
    assert_eq!(s.discard.size(), 2);
}

#[test]
fn pressing_an_empty_deck_recycles_the_discard_reversed() {
    let mut s = state_with_full_deck(Difficulty::Easy);
    // move everything out of the deck, then set up a known discard pile
    while s.deck.size() > 3 {
        let c = s.deck.removeCard().unwrap();
        s.final1.addNoOffset(c);
    }
    for _ in 0..3 {
        let mut c = s.deck.removeCard().unwrap();
        c.isFaceUp = true;
        s.discard.addNoOffset(c);
    }
    let bottom = s.discard.cards[0];
    let middle = s.discard.cards[1];
    let top = s.discard.cards[2];
    s.mouse_button_down_event(DECK_X + 1, DECK_Y + 1);
    assert!(s.discard.empty());
    assert_eq!(s.deck.size(), 3);
    // the discard pile comes back reversed: its old top lies at the bottom
    assert_eq!(s.deck.cards[0].rank, top.rank);
    assert_eq!(s.deck.cards[1].rank, middle.rank);
    assert_eq!(s.deck.cards[2].rank, bottom.rank);
    for c in &s.deck.cards {
        assert!(!c.isFaceUp);
        assert_eq!(c.x, DECK_X);
        assert_eq!(c.y, DECK_Y);
    }
}

#[test]
fn pressing_the_fan_end_flips_a_covered_top_card() {
    let mut s = state_with_full_deck(Difficulty::Easy);
    let c1 = s.deck.removeCard().unwrap();
    let c2 = s.deck.removeCard().unwrap();
    s.pile1.addCard(c1);
    s.pile1.addCard(c2);
    assert!(!s.pile1.getTopCard().unwrap().isFaceUp);
    s.mouse_button_down_event(PILE1_X + 1, PILE_Y + 2 * CARD_OFFSET + 1);
    assert!(s.pile1.getTopCard().unwrap().isFaceUp);
    assert!(!s.pile1.cards[0].isFaceUp);
    assert_eq!(s.pile1.size(), 2);
}

#[test]
fn win_flips_once_all_foundations_are_full_and_stays() {
    let mut s = state_with_full_deck(Difficulty::Easy);
    for _ in 0..13 {
        let c = s.deck.removeCard().unwrap();
        s.final4.addNoOffset(c);
    }
    for _ in 0..13 {
        let c = s.deck.removeCard().unwrap();
        s.final3.addNoOffset(c);
    }
    for _ in 0..13 {
        let c = s.deck.removeCard().unwrap();
        s.final2.addNoOffset(c);
    }
    s.update();
    assert!(!s.gameOver);
    for _ in 0..13 {
        let c = s.deck.removeCard().unwrap();
        s.final1.addNoOffset(c);
    }
    s.update();
    assert!(s.gameOver);
    // once over, even emptying a foundation pile leaves the flag raised
    s.final1 = Pile::new(FINAL1_X, FINAL_Y, PileIdentifier::Final1);
    s.update();
    assert!(s.gameOver);
}

#[test]
fn grabbed_cards_follow_the_pointer() {
    let mut s = state_with_full_deck(Difficulty::Easy);
    let mut c = s.deck.removeCard().unwrap();
    c.isFaceUp = true;
    s.pile1.addCard(c);
    s.mouse_button_down_event(5000, 5000);
    s.mouse_motion_event(PILE1_X + 10, PILE_Y + 10);
    assert_eq!(s.grabbedCards.size(), 1);
    assert_eq!(s.pile1.size(), 0);
    let held = s.grabbedCards.getTopCard().unwrap();
    assert_eq!(held.x, PILE1_X + 10 - 76);
    assert_eq!(held.y, PILE_Y + 10 - 110);
    // further motion keeps the card centered under the pointer
    s.mouse_motion_event(900, 900);
    let held = s.grabbedCards.getTopCard().unwrap();
    assert_eq!(held.x, 900 - 76);
    assert_eq!(held.y, 900 - 110);
}

#[test]
fn failed_drop_reverts_to_the_exact_origin() {
    let mut s = state_with_full_deck(Difficulty::Easy);
    let mut c = s.deck.removeCard().unwrap();
    c.isFaceUp = true;
    s.pile1.addCard(c);
    let before = *s.pile1.getTopCard().unwrap();
    s.mouse_button_down_event(5000, 5000);
    s.mouse_motion_event(PILE1_X + 10, PILE_Y + 10);
    assert_eq!(s.grabbedCards.size(), 1);
    // release far from every pile: no tableau slot, no legal foundation
    s.mouse_button_up_event(5000, 5000);
    assert!(s.grabbedCards.empty());
    assert_eq!(s.pile1.size(), 1);
    let back = s.pile1.getTopCard().unwrap();
    assert_eq!(back.suit, before.suit);
    assert_eq!(back.rank, before.rank);
    assert_eq!(back.isFaceUp, before.isFaceUp);
    assert_eq!(back.x, before.x);
    assert_eq!(back.y, before.y);
    assert_eq!(back.initialPile, PileIdentifier::Pile1);
    assert!(!s.mouseDown);
}

#[test]
fn a_run_grabbed_from_the_middle_moves_whole_onto_a_matching_pile() {
    let mut s = state_with_full_deck(Difficulty::Easy);
    // pile1: Ten of Hearts, Nine of Spades, Eight of Hearts, all face-up
    // pile3: Ten of Hearts cannot exist twice, so use Ten of Diamonds
    let mut held_back: Vec<Card> = Vec::new();
    while let Some(c) = s.deck.removeCard() {
        held_back.push(c);
    }
    let mut take = |suit: Suit, rank: Rank| -> Card {
        let pos = held_back
            .iter()
            .position(|c| c.suit == suit && c.rank == rank)
            .unwrap();
        let mut c = held_back.remove(pos);
        c.isFaceUp = true;
        c
    };
    let t_ten = take(Suit::Heart, Rank::Ten);
    let t_nine = take(Suit::Spade, Rank::Nine);
    let t_eight = take(Suit::Heart, Rank::Eight);
    let o_ten = take(Suit::Diamond, Rank::Ten);
    for c in held_back {
        s.final1.addNoOffset(c);
    }
    s.pile1.addCard(t_ten);
    s.pile1.addCard(t_nine);
    s.pile1.addCard(t_eight);
    s.pile3.addCard(o_ten);
    // grab from the middle of the fan: the Nine and the Eight above it
    s.mouse_button_down_event(5000, 5000);
    s.mouse_motion_event(PILE1_X + 10, PILE_Y + CARD_OFFSET + 5);
    assert_eq!(s.grabbedCards.size(), 2);
    assert_eq!(s.pile1.size(), 1);
    // the bottom-most grabbed card is the Nine
    let last = s.grabbedCards.getTopCard().unwrap();
    assert_eq!(last.rank, Rank::Nine);
    // drop over pile3, whose Ten of Diamonds accepts the black Nine
    s.mouse_button_up_event(PILE3_X + 1, PILE_Y + CARD_OFFSET + 1);
    assert!(s.grabbedCards.empty());
    assert_eq!(s.pile1.size(), 1);
    assert_eq!(s.pile3.size(), 3);
    assert_eq!(s.pile3.cards[0].rank, Rank::Ten);
    assert_eq!(s.pile3.cards[1].rank, Rank::Nine);
    assert_eq!(s.pile3.cards[1].suit, Suit::Spade);
    assert_eq!(s.pile3.cards[2].rank, Rank::Eight);
    assert_eq!(s.pile3.cards[2].suit, Suit::Heart);
    for (j, c) in s.pile3.cards.iter().enumerate() {
        assert_eq!(c.x, PILE3_X);
        assert_eq!(c.y, PILE_Y + (j as i64) * CARD_OFFSET);
        assert_eq!(c.initialPile, PileIdentifier::Pile3);
    }
}

#[test]
fn an_ace_dropped_anywhere_lands_on_a_foundation() {
    let mut s = state_with_full_deck(Difficulty::Easy);
    let mut held_back: Vec<Card> = Vec::new();
    while let Some(c) = s.deck.removeCard() {
        held_back.push(c);
    }
    let pos = held_back
        .iter()
        .position(|c| c.suit == Suit::Heart && c.rank == Rank::Ace)
        .unwrap();
    let mut ace = held_back.remove(pos);
    ace.isFaceUp = true;
    for c in held_back {
        s.final4.addNoOffset(c);
    }
    s.discard.addNoOffset(ace);
    // grab the discard's top card, then release far from every pile
    s.mouse_button_down_event(5000, 5000);
    s.mouse_motion_event(DISCARD_X + 10, DISCARD_Y + 10);
    assert_eq!(s.grabbedCards.size(), 1);
    s.mouse_button_up_event(5000, 5000);
    assert!(s.grabbedCards.empty());
    assert_eq!(s.final1.size(), 1);
    let placed = s.final1.getTopCard().unwrap();
    assert_eq!(placed.rank, Rank::Ace);
    assert_eq!(placed.suit, Suit::Heart);
    assert_eq!(placed.x, FINAL1_X);
    assert_eq!(placed.y, FINAL_Y);
}

#[test]
fn illegal_destinations_refuse_every_card() {
    let s = state_with_full_deck(Difficulty::Easy);
    let c = Card::new(Suit::Heart, Rank::Ace);
    assert!(!s.canBeStacked(&c, PileIdentifier::Deck));
    assert!(!s.canBeStacked(&c, PileIdentifier::Discard));
    assert!(!s.canBeStacked(&c, PileIdentifier::GrabbedCards));
}

#[test]
fn identify_pile_names_every_pile() {
    let s = state_with_full_deck(Difficulty::Easy);
    assert_eq!(
        s.identifyPile(PileIdentifier::Deck).identifier,
        PileIdentifier::Deck
    );
    assert_eq!(
        s.identifyPile(PileIdentifier::Pile5).identifier,
        PileIdentifier::Pile5
    );
    assert_eq!(
        s.identifyPile(PileIdentifier::Final3).identifier,
        PileIdentifier::Final3
    );
    assert_eq!(
        s.identifyPile(PileIdentifier::GrabbedCards).identifier,
        PileIdentifier::GrabbedCards
    );
}

#[test]
fn a_foundation_card_can_be_grabbed_and_reverts_flush() {
    let mut s = state_with_full_deck(Difficulty::Easy);
    let mut held_back: Vec<Card> = Vec::new();
    while let Some(c) = s.deck.removeCard() {
        held_back.push(c);
    }
    let pos = held_back
        .iter()
        .position(|c| c.suit == Suit::Heart && c.rank == Rank::Ace)
        .unwrap();
    let mut ace = held_back.remove(pos);
    ace.isFaceUp = true;
    for c in held_back {
        s.pile7.addCard(c);
    }
    s.final1.addNoOffset(ace);
    s.mouse_button_down_event(5000, 5000);
    s.mouse_motion_event(FINAL1_X + 10, FINAL_Y + 10);
    assert_eq!(s.grabbedCards.size(), 1);
    assert!(s.final1.empty());
    // release over nothing: the Ace satisfies the empty-foundation rule, so
    // the pointer-free foundation drop catches it again
    s.mouse_button_up_event(5000, 5000);
    assert!(s.grabbedCards.empty());
    assert_eq!(s.final1.size(), 1);
    let back = s.final1.getTopCard().unwrap();
    assert_eq!(back.rank, Rank::Ace);
    assert_eq!(back.x, FINAL1_X);
    assert_eq!(back.y, FINAL_Y);
}

#[test]
fn rank_values_follow_the_linear_order() {
    let mut expected: u8 = 0;
    for r in ranks() {
        assert_eq!(r.value(), expected);
        expected += 1;
    }
}
