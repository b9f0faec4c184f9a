//! What the player can set: how the game is shown and how it is played.

use vstd::prelude::*;

verus! {

/// All settings.
#[derive(Copy, Clone, Debug)]
pub struct Settings {
    pub display: DisplaySettings,
    pub game: GameSettings,
}

/// How the game is shown.
#[derive(Copy, Clone, Debug, PartialEq, Eq, Structural)]
pub struct DisplaySettings {
    pub color: bool,
    pub unicode: bool,
}

/// How the game is played.
#[derive(Copy, Clone, Debug, PartialEq, Eq, Structural)]
pub struct GameSettings {
    /// How many cards one draw takes from the stock.
    pub draw_from_stock_len: usize,
    /// How many tableau columns there are.
    pub tableaux_len: u8,
    /// Whether a card may be taken back from a foundation.
    pub take_from_foundation: bool,
}

impl Default for DisplaySettings {
    fn default() -> (d: DisplaySettings)
        ensures
            d == (DisplaySettings { color: true, unicode: true }),
    {
        DisplaySettings { color: true, unicode: true }
    }
}

impl Default for GameSettings {
    fn default() -> (g: GameSettings)
        ensures
            g == (GameSettings { draw_from_stock_len: 3, tableaux_len: 7, take_from_foundation: true }),
    {
        GameSettings { draw_from_stock_len: 3, tableaux_len: 7, take_from_foundation: true }
    }
}

impl Default for Settings {
    fn default() -> (s: Settings)
        ensures
            s.display == (DisplaySettings { color: true, unicode: true }),
            s.game == (GameSettings { draw_from_stock_len: 3, tableaux_len: 7, take_from_foundation: true }),
    {
        Settings { display: DisplaySettings::default(), game: GameSettings::default() }
    }
}

impl GameSettings {
    /// The indices of the tableau columns, from 0.
    pub fn tableaux_indices(&self) -> (r: std::ops::Range<u8>)
        ensures
            r.start == 0,
            r.end == self.tableaux_len,
    {
        0..self.tableaux_len
    }
}

} // verus!
