//! Verified core of a single-player Klondike solitaire game.
//!
//! The crate holds the card/pile data model, the stacking rules, the deck
//! generator and the drag-transaction state machine. Rendering, asset
//! loading and the window event loop are outside collaborators: they hand
//! the core plain values (pointer coordinates, a difficulty) and read plain
//! values back (card positions, face orientation).
//!
//! All coordinates are integers in half-pixel units, so that the fixed
//! vertical fan-out offset between stacked cards stays integral.

pub mod card;
pub mod coordinates;
pub mod pile;
pub mod deck;
pub mod events;
pub mod rules;
pub mod state;
