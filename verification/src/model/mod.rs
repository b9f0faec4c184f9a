//! The game itself: cards, stacks, the deck and its dealer, the rules.

pub mod card;
pub mod deck;
pub mod error;
pub mod game;
pub mod laws;
pub mod settings;
pub mod stack;
pub mod tally;
