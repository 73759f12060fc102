//! Headless core of a small solitaire-style card table.
//!
//! The crate holds the rules of the game as plain data and verified
//! functions: the phase machine (loading, menu, play), the menu button, the
//! repeating timer that drives the cards' re-orientation, the orientation
//! table, and dragging. A host engine draws the entities and feeds in time,
//! pointer input and randomness.

pub mod button;
pub mod card;
pub mod color;
pub mod game;
pub mod label;
pub mod menu;
pub mod rotation;
pub mod solitaire;
pub mod state;
pub mod timer;
pub mod world;
