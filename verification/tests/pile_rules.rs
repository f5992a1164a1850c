use solitaire::card::{generateCardPath, Card, Color, PileIdentifier, Rank, Suit};
use solitaire::deck::newDeck;
use solitaire::pile::Pile;
use solitaire::rules::{stackableCheckForFinal, stackableCheckForPile};

fn all_ranks() -> Vec<Rank> {
    vec![
        Rank::Ace,
        Rank::Two,
        Rank::Three,
        Rank::Four,
        Rank::Five,
        Rank::Six,
        Rank::Seven,
        Rank::Eight,
        Rank::Nine,
        Rank::Ten,
        Rank::Jack,
        Rank::Queen,
        Rank::King,
    ]
}

fn all_suits() -> Vec<Suit> {
    vec![Suit::Heart, Suit::Diamond, Suit::Club, Suit::Spade]
}

#[test]
fn card_new_starts_face_down_at_origin() {
    let c = Card::new(Suit::Heart, Rank::Ace);
    assert!(!c.isFaceUp);
    assert_eq!(c.x, 0);
    assert_eq!(c.y, 0);
    assert_eq!(c.initialPile, PileIdentifier::Deck);
    assert_eq!(c.suit, Suit::Heart);
    assert_eq!(c.rank, Rank::Ace);
}

#[test]
fn card_flip_toggles_orientation() {
    let mut c = Card::new(Suit::Club, Rank::Seven);
    assert!(!c.isFaceUp);
    c.flip();
    assert!(c.isFaceUp);
    c.flip();
    assert!(!c.isFaceUp);
}

#[test]
fn suit_colors() {
    assert_eq!(Suit::Heart.getColor(), Color::Red);
    assert_eq!(Suit::Diamond.getColor(), Color::Red);
    assert_eq!(Suit::Club.getColor(), Color::Black);
    assert_eq!(Suit::Spade.getColor(), Color::Black);
}

#[test]
fn card_path_examples() {
    assert_eq!(generateCardPath(Suit::Heart, Rank::Ace), "/ace_of_hearts.png");
    assert_eq!(generateCardPath(Suit::Diamond, Rank::Two), "/2_of_diamonds.png");
    assert_eq!(generateCardPath(Suit::Club, Rank::Ten), "/10_of_clubs.png");
    assert_eq!(generateCardPath(Suit::Spade, Rank::Queen), "/queen_of_spades.png");
    assert_eq!(generateCardPath(Suit::Spade, Rank::King), "/king_of_spades.png");
    assert_eq!(generateCardPath(Suit::Heart, Rank::Jack), "/jack_of_hearts.png");
}

#[test]
fn deck_holds_every_pair_once() {
    let deck = newDeck();
    assert_eq!(deck.len(), 52);
    for s in all_suits() {
        for r in all_ranks() {
            let count = deck.iter().filter(|c| c.suit == s && c.rank == r).count();
            assert_eq!(count, 1);
        }
    }
    for c in &deck {
        assert!(!c.isFaceUp);
        assert_eq!(c.initialPile, PileIdentifier::Deck);
    }
}

#[test]
fn two_decks_differ_somewhere() {
    // a degenerate generator that never shuffled would make these collide
    let a = newDeck();
    let b = newDeck();
    assert_eq!(a.len(), 52);
    assert_eq!(b.len(), 52);
    let same = a
        .iter()
        .zip(b.iter())
        .all(|(x, y)| x.suit == y.suit && x.rank == y.rank);
    assert!(!same);
}

#[test]
fn empty_foundation_accepts_only_aces() {
    let pile = Pile::new(870, 60, PileIdentifier::Final1);
    for s in all_suits() {
        for r in all_ranks() {
            let c = Card::new(s, r);
            assert_eq!(stackableCheckForFinal(&c, &pile), r == Rank::Ace);
        }
    }
}

#[test]
fn foundation_accepts_only_next_rank_of_same_suit() {
    let mut pile = Pile::new(870, 60, PileIdentifier::Final1);
    pile.addNoOffset(Card::new(Suit::Heart, Rank::Five));
    assert!(stackableCheckForFinal(&Card::new(Suit::Heart, Rank::Six), &pile));
    assert!(!stackableCheckForFinal(&Card::new(Suit::Heart, Rank::Five), &pile));
    assert!(!stackableCheckForFinal(&Card::new(Suit::Heart, Rank::Four), &pile));
    assert!(!stackableCheckForFinal(&Card::new(Suit::Heart, Rank::Seven), &pile));
    assert!(!stackableCheckForFinal(&Card::new(Suit::Diamond, Rank::Six), &pile));
    assert!(!stackableCheckForFinal(&Card::new(Suit::Spade, Rank::Six), &pile));
}

#[test]
fn nothing_follows_a_king_on_a_foundation() {
    let mut pile = Pile::new(870, 60, PileIdentifier::Final1);
    pile.addNoOffset(Card::new(Suit::Club, Rank::King));
    for s in all_suits() {
        for r in all_ranks() {
            assert!(!stackableCheckForFinal(&Card::new(s, r), &pile));
        }
    }
}

#[test]
fn empty_tableau_accepts_only_kings() {
    let pile = Pile::new(170, 600, PileIdentifier::Pile1);
    for s in all_suits() {
        for r in all_ranks() {
            let c = Card::new(s, r);
            assert_eq!(stackableCheckForPile(&c, &pile), r == Rank::King);
        }
    }
}

#[test]
fn tableau_accepts_only_opposite_color_next_rank_down() {
    let mut pile = Pile::new(170, 600, PileIdentifier::Pile1);
    pile.addCard(Card::new(Suit::Heart, Rank::Nine));
    assert!(stackableCheckForPile(&Card::new(Suit::Spade, Rank::Eight), &pile));
    assert!(stackableCheckForPile(&Card::new(Suit::Club, Rank::Eight), &pile));
    assert!(!stackableCheckForPile(&Card::new(Suit::Heart, Rank::Eight), &pile));
    assert!(!stackableCheckForPile(&Card::new(Suit::Diamond, Rank::Eight), &pile));
    assert!(!stackableCheckForPile(&Card::new(Suit::Spade, Rank::Nine), &pile));
    assert!(!stackableCheckForPile(&Card::new(Suit::Spade, Rank::Ten), &pile));
    assert!(!stackableCheckForPile(&Card::new(Suit::Spade, Rank::Seven), &pile));
}

#[test]
fn offset_placement_fans_cards_out() {
    let mut pile = Pile::new(300, 400, PileIdentifier::Pile2);
    pile.addCard(Card::new(Suit::Heart, Rank::Ace));
    pile.addCard(Card::new(Suit::Heart, Rank::Two));
    pile.addCard(Card::new(Suit::Heart, Rank::Three));
    assert_eq!(pile.size(), 3);
    for (i, c) in pile.cards.iter().enumerate() {
        assert_eq!(c.x, 300);
        assert_eq!(c.y, 400 + (i as i64) * 25);
        assert_eq!(c.initialX, 300);
        assert_eq!(c.initialY, 400 + (i as i64) * 25);
        assert_eq!(c.initialPile, PileIdentifier::Pile2);
    }
}

#[test]
fn flush_placement_stacks_cards_at_the_anchor() {
    let mut pile = Pile::new(500, 80, PileIdentifier::Discard);
    for r in all_ranks() {
        pile.addNoOffset(Card::new(Suit::Spade, r));
    }
    assert_eq!(pile.size(), 13);
    for c in &pile.cards {
        assert_eq!(c.x, 500);
        assert_eq!(c.y, 80);
        assert_eq!(c.initialX, 500);
        assert_eq!(c.initialY, 80);
        assert_eq!(c.initialPile, PileIdentifier::Discard);
    }
}

#[test]
fn grabbed_placement_keeps_the_recorded_origin() {
    let mut grabbed = Pile::new(0, 0, PileIdentifier::GrabbedCards);
    let mut c = Card::new(Suit::Heart, Rank::Four);
    c.initialX = 77;
    c.initialY = 88;
    c.initialPile = PileIdentifier::Pile3;
    grabbed.addToGrabbed(c);
    let top = grabbed.getTopCard().unwrap();
    assert_eq!(top.x, 0);
    assert_eq!(top.y, 0);
    assert_eq!(top.initialX, 77);
    assert_eq!(top.initialY, 88);
    assert_eq!(top.initialPile, PileIdentifier::Pile3);
}

#[test]
fn remove_card_pops_the_top_or_signals_empty() {
    let mut pile = Pile::new(0, 0, PileIdentifier::Pile1);
    assert!(pile.removeCard().is_none());
    pile.addCard(Card::new(Suit::Heart, Rank::Ace));
    pile.addCard(Card::new(Suit::Heart, Rank::Two));
    let top = pile.removeCard().unwrap();
    assert_eq!(top.rank, Rank::Two);
    assert_eq!(pile.size(), 1);
}

#[test]
fn remove_cards_drains_top_first() {
    let mut pile = Pile::new(0, 0, PileIdentifier::Discard);
    pile.addNoOffset(Card::new(Suit::Heart, Rank::Ace));
    pile.addNoOffset(Card::new(Suit::Heart, Rank::Two));
    pile.addNoOffset(Card::new(Suit::Heart, Rank::Three));
    let drained = pile.removeCards();
    assert!(pile.empty());
    assert_eq!(drained.len(), 3);
    assert_eq!(drained[0].rank, Rank::Three);
    assert_eq!(drained[1].rank, Rank::Two);
    assert_eq!(drained[2].rank, Rank::Ace);
}

#[test]
fn peeking_out_of_range_returns_nothing() {
    let mut pile = Pile::new(0, 0, PileIdentifier::Pile1);
    assert!(pile.getTopCard().is_none());
    assert!(pile.getCardByIndex(0).is_none());
    pile.addCard(Card::new(Suit::Club, Rank::Five));
    assert_eq!(pile.getTopCard().unwrap().rank, Rank::Five);
    assert_eq!(pile.getCardByIndex(0).unwrap().rank, Rank::Five);
    assert!(pile.getCardByIndex(1).is_none());
}

#[test]
fn flip_top_card_is_a_no_op_on_an_empty_pile() {
    let mut pile = Pile::new(0, 0, PileIdentifier::Pile1);
    pile.flipTopCard();
    assert!(pile.empty());
    pile.addCard(Card::new(Suit::Club, Rank::Five));
    pile.flipTopCard();
    assert!(pile.getTopCard().unwrap().isFaceUp);
    pile.flipTopCard();
    assert!(!pile.getTopCard().unwrap().isFaceUp);
}
