//! Playing cards: a rank, a suit and the side that shows.

use vstd::prelude::*;

verus! {

/// The colour of a suit.
#[derive(Copy, Clone, Debug, PartialEq, Eq, Hash, Structural)]
pub enum Color {
    Black,
    Red,
}

/// The four suits, in the order in which the foundations are laid out.
#[derive(Copy, Clone, Debug, PartialEq, Eq, Hash, Structural)]
pub enum Suit {
    Clubs,
    Diamonds,
    Hearts,
    Spades,
}

/// The thirteen ranks, ace low.
#[derive(Copy, Clone, Debug, PartialEq, Eq, Hash, Structural)]
pub enum Rank {
    Ace,
    Two,
    Three,
    Four,
    Five,
    Six,
    Seven,
    Eight,
    Nine,
    Ten,
    Jack,
    Queen,
    King,
}

/// How many suits there are.
pub const SUITS: usize = 4;

/// How many ranks there are.
pub const RANKS: usize = 13;

/// How many cards a full deck holds.
pub const DECK_LEN: usize = 52;

impl Suit {
    /// The colour of the suit: clubs and spades are black, diamonds and
    /// hearts red.
    pub open spec fn spec_color(self) -> Color {
        match self {
            Suit::Clubs | Suit::Spades => Color::Black,
            Suit::Diamonds | Suit::Hearts => Color::Red,
        }
    }

    /// The place of the suit among the four, from 0.
    pub open spec fn spec_index(self) -> int {
        match self {
            Suit::Clubs => 0,
            Suit::Diamonds => 1,
            Suit::Hearts => 2,
            Suit::Spades => 3,
        }
    }

    /// The suit at a place from 0 to 3; clubs for any other number.
    pub open spec fn spec_from_index(index: int) -> Suit {
        if index == 1 {
            Suit::Diamonds
        } else if index == 2 {
            Suit::Hearts
        } else if index == 3 {
            Suit::Spades
        } else {
            Suit::Clubs
        }
    }

    #[verifier::when_used_as_spec(spec_color)]
    pub fn color(self) -> (c: Color)
        ensures
            c == self.spec_color(),
    {
        match self {
            Suit::Clubs | Suit::Spades => Color::Black,
            Suit::Diamonds | Suit::Hearts => Color::Red,
        }
    }

    pub fn index(self) -> (i: usize)
        ensures
            i == self.spec_index(),
            i < SUITS,
    {
        match self {
            Suit::Clubs => 0,
            Suit::Diamonds => 1,
            Suit::Hearts => 2,
            Suit::Spades => 3,
        }
    }

    /// The suit at a place, if the place is one of the four.
    pub fn from_index(index: usize) -> (s: Option<Suit>)
        ensures
            index < SUITS ==> s == Some(Suit::spec_from_index(index as int)),
            index < SUITS ==> Suit::spec_from_index(index as int).spec_index() == index,
            index >= SUITS ==> s is None,
    {
        if index == 0 {
            Some(Suit::Clubs)
        } else if index == 1 {
            Some(Suit::Diamonds)
        } else if index == 2 {
            Some(Suit::Hearts)
        } else if index == 3 {
            Some(Suit::Spades)
        } else {
            None
        }
    }
}

impl Rank {
    /// The number of the rank: 1 for the ace, 13 for the king.
    pub open spec fn spec_value(self) -> int {
        match self {
            Rank::Ace => 1,
            Rank::Two => 2,
            Rank::Three => 3,
            Rank::Four => 4,
            Rank::Five => 5,
            Rank::Six => 6,
            Rank::Seven => 7,
            Rank::Eight => 8,
            Rank::Nine => 9,
            Rank::Ten => 10,
            Rank::Jack => 11,
            Rank::Queen => 12,
            Rank::King => 13,
        }
    }

    /// The rank with a number from 1 to 13; the ace for any other number.
    pub open spec fn spec_from_value(value: int) -> Rank {
        if value == 2 {
            Rank::Two
        } else if value == 3 {
            Rank::Three
        } else if value == 4 {
            Rank::Four
        } else if value == 5 {
            Rank::Five
        } else if value == 6 {
            Rank::Six
        } else if value == 7 {
            Rank::Seven
        } else if value == 8 {
            Rank::Eight
        } else if value == 9 {
            Rank::Nine
        } else if value == 10 {
            Rank::Ten
        } else if value == 11 {
            Rank::Jack
        } else if value == 12 {
            Rank::Queen
        } else if value == 13 {
            Rank::King
        } else {
            Rank::Ace
        }
    }

    pub fn value(self) -> (v: u8)
        ensures
            v == self.spec_value(),
            1 <= v <= 13,
    {
        match self {
            Rank::Ace => 1,
            Rank::Two => 2,
            Rank::Three => 3,
            Rank::Four => 4,
            Rank::Five => 5,
            Rank::Six => 6,
            Rank::Seven => 7,
            Rank::Eight => 8,
            Rank::Nine => 9,
            Rank::Ten => 10,
            Rank::Jack => 11,
            Rank::Queen => 12,
            Rank::King => 13,
        }
    }

    /// The rank with a number, if the number is one from 1 to 13.
    pub fn from_value(value: u8) -> (r: Option<Rank>)
        ensures
            1 <= value <= 13 ==> r == Some(Rank::spec_from_value(value as int)),
            1 <= value <= 13 ==> Rank::spec_from_value(value as int).spec_value() == value,
            !(1 <= value <= 13) ==> r is None,
    {
        match value {
            1 => Some(Rank::Ace),
            2 => Some(Rank::Two),
            3 => Some(Rank::Three),
            4 => Some(Rank::Four),
            5 => Some(Rank::Five),
            6 => Some(Rank::Six),
            7 => Some(Rank::Seven),
            8 => Some(Rank::Eight),
            9 => Some(Rank::Nine),
            10 => Some(Rank::Ten),
            11 => Some(Rank::Jack),
            12 => Some(Rank::Queen),
            13 => Some(Rank::King),
            _ => None,
        }
    }
}

/// What a card is, whichever side shows: its rank and its suit.
pub type CardId = (Rank, Suit);

/// A card. Its rank and suit say which of the fifty-two it is; `face_up`
/// says which side shows.
#[derive(Copy, Clone, Debug, PartialEq, Eq, Hash, Structural)]
pub struct Card {
    pub rank: Rank,
    pub suit: Suit,
    pub face_up: bool,
}

impl Card {
    /// The identity of the card.
    pub open spec fn id(self) -> CardId {
        (self.rank, self.suit)
    }

    /// The same card with the given side up.
    pub open spec fn facing(self, face_up: bool) -> Card {
        Card { rank: self.rank, suit: self.suit, face_up }
    }

    pub open spec fn spec_is_red(self) -> bool {
        self.suit.spec_color() == Color::Red
    }

    pub open spec fn spec_is_black(self) -> bool {
        self.suit.spec_color() == Color::Black
    }

    /// A new card, face down.
    pub fn new(rank: Rank, suit: Suit) -> (c: Card)
        ensures
            c == (Card { rank, suit, face_up: false }),
    {
        Card { rank, suit, face_up: false }
    }

    /// Turns the card over.
    pub fn flip(&mut self)
        ensures
            *final(self) == old(self).facing(!old(self).face_up),
    {
        self.face_up = !self.face_up;
    }

    #[verifier::when_used_as_spec(spec_is_red)]
    pub fn is_red(self) -> (b: bool)
        ensures
            b == self.spec_is_red(),
    {
        match self.suit {
            Suit::Diamonds | Suit::Hearts => true,
            Suit::Clubs | Suit::Spades => false,
        }
    }

    #[verifier::when_used_as_spec(spec_is_black)]
    pub fn is_black(self) -> (b: bool)
        ensures
            b == self.spec_is_black(),
    {
        !self.is_red()
    }

    /// Whether `self` may lie directly on `below` in a tableau run: one rank
    /// lower and of the other colour.
    pub open spec fn spec_follows(self, below: Card) -> bool {
        below.rank.spec_value() == self.rank.spec_value() + 1 && below.suit.spec_color()
            != self.suit.spec_color()
    }

    #[verifier::when_used_as_spec(spec_follows)]
    pub fn follows(self, below: Card) -> (b: bool)
        ensures
            b == self.spec_follows(below),
    {
        below.rank.value() == self.rank.value() + 1 && below.is_red() != self.is_red()
    }
}

} // verus!
