//! Rules engine for a poker-hand-scoring roguelike card game.
//!
//! The crate models cards, decks, poker-hand classification and scoring,
//! blind target scores, and the round/run state machine that decides when a
//! run is won or lost.  Every function is verified against its contract.

pub mod blind;
pub mod card;
pub mod card_list;
pub mod cycle_cursor;
pub mod cycle_cursor_vec;
pub mod deck;
pub mod error;
pub mod round;
pub mod run;
pub mod scorer;
