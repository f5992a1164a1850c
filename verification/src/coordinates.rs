//! Anchor coordinates of the thirteen stable piles, in half-pixel units,
//! and the bounds the model puts on coordinates.

use vstd::prelude::*;

verus! {

/// The x coordinate of pile 1.
pub const PILE1_X: i64 = 170;

/// The x coordinate of pile 2.
pub const PILE2_X: i64 = 520;

/// The x coordinate of pile 3.
pub const PILE3_X: i64 = 870;

/// The x coordinate of pile 4.
pub const PILE4_X: i64 = 1220;

/// The x coordinate of pile 5.
pub const PILE5_X: i64 = 1570;

/// The x coordinate of pile 6.
pub const PILE6_X: i64 = 1920;

/// The x coordinate of pile 7.
pub const PILE7_X: i64 = 2270;

/// The y coordinate of the piles from pile 1 to pile 7.
pub const PILE_Y: i64 = 600;

/// The x coordinate of the deck.
pub const DECK_X: i64 = 170;

/// The y coordinate of the deck.
pub const DECK_Y: i64 = 60;

/// The x coordinate of the discard pile.
pub const DISCARD_X: i64 = 370;

/// The y coordinate of the discard pile.
pub const DISCARD_Y: i64 = 60;

/// The x coordinate of final pile 1.
pub const FINAL1_X: i64 = 870;

/// The x coordinate of final pile 2.
pub const FINAL2_X: i64 = 1220;

/// The x coordinate of final pile 3.
pub const FINAL3_X: i64 = 1570;

/// The x coordinate of final pile 4.
pub const FINAL4_X: i64 = 1920;

/// The y coordinate of the piles from final 1 to final 4.
pub const FINAL_Y: i64 = 60;

/// Bound on a pile anchor coordinate and on the pointer coordinates the
/// event handlers accept. Far beyond any window, but finite, so that all
/// position arithmetic stays inside `i64`.
pub const ANCHOR_LIMIT: i64 = 1000000;

/// Bound on a card coordinate: an anchor plus a full fan of offsets, or a
/// pointer coordinate shifted by a card size, always stays within it.
pub const POS_LIMIT: i64 = 1010000;

} // verus!
