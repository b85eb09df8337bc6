//! Video poker: cards, decks, hand ranking, payouts and the rules of a round.
//!
//! Everything here is plain computation; drawing, fonts, input devices and the
//! main loop live outside the library.

pub mod cards;
pub mod game;
pub mod laws;
pub mod render;
pub mod shuffle;
pub mod text;
pub mod ui;
