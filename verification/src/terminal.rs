//! The control sequences that move the cursor and set the colour on a
//! terminal.

use crate::utils::coords::Coords;
use vstd::prelude::*;

verus! {

/// The character of a decimal digit.
pub open spec fn digit_char(d: int) -> char {
    if d == 1 {
        '1'
    } else if d == 2 {
        '2'
    } else if d == 3 {
        '3'
    } else if d == 4 {
        '4'
    } else if d == 5 {
        '5'
    } else if d == 6 {
        '6'
    } else if d == 7 {
        '7'
    } else if d == 8 {
        '8'
    } else if d == 9 {
        '9'
    } else {
        '0'
    }
}

/// A number written in decimal, without leading zeros.
pub open spec fn decimal(n: nat) -> Seq<char>
    decreases n,
{
    if n < 10 {
        seq![digit_char(n as int)]
    } else {
        decimal(n / 10).push(digit_char((n % 10) as int))
    }
}

/// What every control sequence begins with: escape and an opening bracket.
pub open spec fn csi() -> Seq<char> {
    seq!['\x1b', '[']
}

/// The sequence that puts the cursor in column `x` of row `y`, both counted
/// from 1.
pub open spec fn goto_text(x: u16, y: u16) -> Seq<char> {
    csi() + decimal(y as nat) + seq![';'] + decimal(x as nat) + seq!['H']
}

/// The sequence that moves the cursor `n` columns to the left.
pub open spec fn left_text(n: u16) -> Seq<char> {
    csi() + decimal(n as nat) + seq!['D']
}

/// The sequence that moves the cursor `n` rows down.
pub open spec fn down_text(n: u16) -> Seq<char> {
    csi() + decimal(n as nat) + seq!['B']
}

/// The sequence that sets the default foreground colour.
pub open spec fn fg_reset_text() -> Seq<char> {
    csi() + seq!['3', '9', 'm']
}

/// The sequence that sets the bright white foreground colour.
pub open spec fn fg_light_white_text() -> Seq<char> {
    csi() + seq!['3', '8', ';', '5', ';', '1', '5', 'm']
}

/// What termion's `cursor::Goto(x, y)` displays as. Termion writes the
/// escape character, a bracket, the row, a semicolon, the column and `H`;
/// in a debug build it refuses the pair (0, 0).
#[verifier::external_body]
pub(crate) fn goto_sequence(x: u16, y: u16) -> (s: String)
    requires
        x != 0 || y != 0,
    ensures
        s@ == goto_text(x, y),
{
    format!("{}", termion::cursor::Goto(x, y))
}

/// What termion's `cursor::Left(n)` displays as: the escape character, a
/// bracket, the number and `D`.
#[verifier::external_body]
pub(crate) fn left_sequence(n: u16) -> (s: String)
    ensures
        s@ == left_text(n),
{
    format!("{}", termion::cursor::Left(n))
}

/// What termion's `cursor::Down(n)` displays as: the escape character, a
/// bracket, the number and `B`.
#[verifier::external_body]
pub(crate) fn down_sequence(n: u16) -> (s: String)
    ensures
        s@ == down_text(n),
{
    format!("{}", termion::cursor::Down(n))
}

/// What termion's `color::Fg(color::Reset)` displays as: the fixed sequence
/// with the number 39.
#[verifier::external_body]
pub(crate) fn fg_reset_sequence() -> (s: String)
    ensures
        s@ == fg_reset_text(),
{
    format!("{}", termion::color::Fg(termion::color::Reset))
}

/// What termion's `color::Fg(color::LightWhite)` displays as: the fixed
/// sequence for colour 15 of the 256-colour palette.
#[verifier::external_body]
pub(crate) fn fg_light_white_sequence() -> (s: String)
    ensures
        s@ == fg_light_white_text(),
{
    format!("{}", termion::color::Fg(termion::color::LightWhite))
}

/// The sequence that puts the cursor on the cell at `coords`, which are
/// counted from 0.
pub fn cursor_to(coords: Coords) -> (s: String)
    requires
        coords.has_row_col(),
    ensures
        s@ == goto_text(coords.row_col().1 as u16, coords.row_col().0 as u16),
{
    let (row, col) = coords.as_row_col();
    goto_sequence(col, row)
}

} // verus!
