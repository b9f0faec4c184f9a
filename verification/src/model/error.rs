//! The ways in which a request to the game can be turned down.

use vstd::prelude::*;

verus! {

/// Why a request was refused. Each value names one rule; none of them is a
/// fault that a second try could mend.
#[derive(Copy, Clone, Debug, PartialEq, Eq, Hash, Structural)]
pub enum GameError {
    /// The index is no legal start of a selection in this stack, or a
    /// selection is held already.
    InvalidSelection,
    /// The cards do not form a run: one lies face down, ranks do not step
    /// down by one, colours or suits do not fit.
    InvalidRun,
    /// Cards may not be taken from this stack.
    ForbiddenSource,
    /// Cards may not be put on this stack.
    ForbiddenTarget,
    /// The run does not have the length that the target asks for.
    InvalidRunLength,
    /// A move was asked for while nothing was selected.
    NoActiveSelection,
    /// An index lies beyond the end of what it points into.
    IndexOutOfRange,
    /// The deck is too short to be dealt.
    InsufficientCards,
    /// Stock and talon are both empty.
    NothingToRecycle,
}

impl GameError {
    /// A short description of the rule, for the one who shows it.
    pub fn message(&self) -> (text: &'static str)
        ensures
            text@ == self.spec_message()@,
    {
        match self {
            GameError::InvalidSelection => "that card cannot be selected",
            GameError::InvalidRun => "those cards do not form a run",
            GameError::ForbiddenSource => "cards cannot be taken from there",
            GameError::ForbiddenTarget => "cards cannot be put there",
            GameError::InvalidRunLength => "the run has the wrong length",
            GameError::NoActiveSelection => "nothing is selected",
            GameError::IndexOutOfRange => "the index is out of range",
            GameError::InsufficientCards => "the deck is too short",
            GameError::NothingToRecycle => "stock and talon are empty",
        }
    }

    /// The text of `message`.
    pub open spec fn spec_message(&self) -> &'static str {
        match self {
            GameError::InvalidSelection => "that card cannot be selected",
            GameError::InvalidRun => "those cards do not form a run",
            GameError::ForbiddenSource => "cards cannot be taken from there",
            GameError::ForbiddenTarget => "cards cannot be put there",
            GameError::InvalidRunLength => "the run has the wrong length",
            GameError::NoActiveSelection => "nothing is selected",
            GameError::IndexOutOfRange => "the index is out of range",
            GameError::InsufficientCards => "the deck is too short",
            GameError::NothingToRecycle => "stock and talon are empty",
        }
    }
}

} // verus!
