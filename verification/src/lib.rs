//! Klondike solitaire: the game's state machine and the layout of its display.

pub mod display;
pub mod model;
pub mod terminal;
pub mod utils;
