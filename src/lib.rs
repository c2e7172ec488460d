//! The rule engine of the card game Set: the deck, the matching rule, the
//! search for sets on a board, and the turn state machine that ties them
//! together.

pub mod card;
pub mod rules;
pub mod deck;
pub mod input;
pub mod game;
pub mod render;
