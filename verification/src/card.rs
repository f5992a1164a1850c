//! The card data model: suits, ranks, colors, pile identifiers and the
//! card itself, together with its mathematical view.

#![allow(non_snake_case)]

use vstd::prelude::*;
use vstd::string::StringExecFns;

verus! {

/// The card width, in half-pixel units.
pub const CARD_WIDTH: i64 = 152;

/// The card height, in half-pixel units.
pub const CARD_HEIGHT: i64 = 220;

/// The color of the suit of a card.
#[derive(Clone, Copy, PartialEq, Eq, Structural, Debug)]
pub enum Color {
    Red,
    Black,
}

/// Indicates the suit of the card.
#[derive(Clone, Copy, PartialEq, Eq, Structural, Debug)]
pub enum Suit {
    Heart,
    Diamond,
    Club,
    Spade,
}

/// The color of a suit: hearts and diamonds are red, clubs and spades black.
pub open spec fn suit_color(s: Suit) -> Color {
    match s {
        Suit::Heart | Suit::Diamond => Color::Red,
        Suit::Club | Suit::Spade => Color::Black,
    }
}

impl Suit {
    /// Returns the color of a suit.
    pub fn getColor(&self) -> (c: Color)
        ensures
            c == suit_color(*self),
    {
        match self {
            Suit::Heart | Suit::Diamond => Color::Red,
            Suit::Club | Suit::Spade => Color::Black,
        }
    }
}

/// Indicates the rank of the card: Ace, Two, ..., King.
#[derive(Clone, Copy, PartialEq, Eq, Structural, Debug)]
pub enum Rank {
    Ace,
    Two,
    Three,
    Four,
    Five,
    Six,
    Seven,
    Eight,
    Nine,
    Ten,
    Jack,
    Queen,
    King,
}

/// The position of a rank in the linear order Ace = 0 .. King = 12.
pub open spec fn rank_value(r: Rank) -> int {
    match r {
        Rank::Ace => 0,
        Rank::Two => 1,
        Rank::Three => 2,
        Rank::Four => 3,
        Rank::Five => 4,
        Rank::Six => 5,
        Rank::Seven => 6,
        Rank::Eight => 7,
        Rank::Nine => 8,
        Rank::Ten => 9,
        Rank::Jack => 10,
        Rank::Queen => 11,
        Rank::King => 12,
    }
}

impl Rank {
    /// Returns the position of the rank in the linear order Ace = 0 .. King = 12.
    pub fn value(&self) -> (v: u8)
        ensures
            v as int == rank_value(*self),
    {
        match self {
            Rank::Ace => 0,
            Rank::Two => 1,
            Rank::Three => 2,
            Rank::Four => 3,
            Rank::Five => 4,
            Rank::Six => 5,
            Rank::Seven => 6,
            Rank::Eight => 7,
            Rank::Nine => 8,
            Rank::Ten => 9,
            Rank::Jack => 10,
            Rank::Queen => 11,
            Rank::King => 12,
        }
    }
}

/// Indicates the type of a pile.
#[derive(Clone, Copy, PartialEq, Eq, Structural, Debug)]
pub enum PileIdentifier {
    Deck,
    Discard,
    Final1,
    Final2,
    Final3,
    Final4,
    Pile1,
    Pile2,
    Pile3,
    Pile4,
    Pile5,
    Pile6,
    Pile7,
    GrabbedCards,
}

/// Represents a card.
///
/// The coordinates are in half-pixel units and are owned and mutated by
/// whichever pile currently holds the card. The initial coordinates and
/// initial pile record the card's last stable location, so a failed drag
/// can restore it.
#[derive(Clone, Copy, PartialEq, Eq, Structural, Debug)]
pub struct Card {
    /// The current x coordinate of the card.
    pub x: i64,
    /// The current y coordinate of the card.
    pub y: i64,
    /// The x coordinate the card returns to if stacking was unsuccessful.
    pub initialX: i64,
    /// The y coordinate the card returns to if stacking was unsuccessful.
    pub initialY: i64,
    /// The pile the card returns to if stacking was unsuccessful.
    pub initialPile: PileIdentifier,
    /// Indicates if the card is face-up or face-down.
    pub isFaceUp: bool,
    /// The suit of the card.
    pub suit: Suit,
    /// The rank of the card.
    pub rank: Rank,
}

/// The mathematical view of a card, with unbounded integer coordinates.
#[verifier::ext_equal]
pub ghost struct CardView {
    pub x: int,
    pub y: int,
    pub initialX: int,
    pub initialY: int,
    pub initialPile: PileIdentifier,
    pub isFaceUp: bool,
    pub suit: Suit,
    pub rank: Rank,
}

impl View for Card {
    type V = CardView;

    open spec fn view(&self) -> CardView {
        CardView {
            x: self.x as int,
            y: self.y as int,
            initialX: self.initialX as int,
            initialY: self.initialY as int,
            initialPile: self.initialPile,
            isFaceUp: self.isFaceUp,
            suit: self.suit,
            rank: self.rank,
        }
    }
}

impl CardView {
    /// The identity of a card: its suit and rank, which together name it
    /// uniquely across the whole game.
    pub open spec fn key(self) -> (Suit, Rank) {
        (self.suit, self.rank)
    }

    /// The color of the card's suit.
    pub open spec fn color(self) -> Color {
        suit_color(self.suit)
    }
}

impl Card {
    /// Creates a new card of the given suit and rank, face-down at the
    /// origin, recorded as belonging to the deck.
    pub fn new(suit: Suit, rank: Rank) -> (c: Card)
        ensures
            c@ == (CardView {
                x: 0,
                y: 0,
                initialX: 0,
                initialY: 0,
                initialPile: PileIdentifier::Deck,
                isFaceUp: false,
                suit,
                rank,
            }),
    {
        Card {
            x: 0,
            y: 0,
            initialX: 0,
            initialY: 0,
            initialPile: PileIdentifier::Deck,
            isFaceUp: false,
            suit,
            rank,
        }
    }

    /// Flips the card.
    pub fn flip(&mut self)
        ensures
            final(self)@ == (CardView { isFaceUp: !old(self)@.isFaceUp, ..old(self)@ }),
    {
        self.isFaceUp = !self.isFaceUp;
    }
}

/// The file name stem of a rank inside a card image path.
pub open spec fn spec_rank_token(r: Rank) -> Seq<char> {
    match r {
        Rank::Ace => "ace"@,
        Rank::Two => "2"@,
        Rank::Three => "3"@,
        Rank::Four => "4"@,
        Rank::Five => "5"@,
        Rank::Six => "6"@,
        Rank::Seven => "7"@,
        Rank::Eight => "8"@,
        Rank::Nine => "9"@,
        Rank::Ten => "10"@,
        Rank::Jack => "jack"@,
        Rank::Queen => "queen"@,
        Rank::King => "king"@,
    }
}

/// The file name stem of a suit inside a card image path.
pub open spec fn spec_suit_token(s: Suit) -> Seq<char> {
    match s {
        Suit::Heart => "hearts"@,
        Suit::Diamond => "diamonds"@,
        Suit::Club => "clubs"@,
        Suit::Spade => "spades"@,
    }
}

/// The path of the image of a card: "/<rank>_of_<suit>.png".
pub open spec fn spec_card_path(suit: Suit, rank: Rank) -> Seq<char> {
    "/"@ + spec_rank_token(rank) + "_of_"@ + spec_suit_token(suit) + ".png"@
}

fn rank_token(r: Rank) -> (t: &'static str)
    ensures
        t@ == spec_rank_token(r),
{
    match r {
        Rank::Ace => "ace",
        Rank::Two => "2",
        Rank::Three => "3",
        Rank::Four => "4",
        Rank::Five => "5",
        Rank::Six => "6",
        Rank::Seven => "7",
        Rank::Eight => "8",
        Rank::Nine => "9",
        Rank::Ten => "10",
        Rank::Jack => "jack",
        Rank::Queen => "queen",
        Rank::King => "king",
    }
}

fn suit_token(s: Suit) -> (t: &'static str)
    ensures
        t@ == spec_suit_token(s),
{
    match s {
        Suit::Heart => "hearts",
        Suit::Diamond => "diamonds",
        Suit::Club => "clubs",
        Suit::Spade => "spades",
    }
}

/// Returns the path to the image of the card with the given suit and rank.
pub fn generateCardPath(suit: Suit, rank: Rank) -> (r: String)
    ensures
        r@ == spec_card_path(suit, rank),
{
    String::from_str("/")
        .concat(rank_token(rank))
        .concat("_of_")
        .concat(suit_token(suit))
        .concat(".png")
}

} // verus!
