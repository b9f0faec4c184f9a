use klondike_rs::model::card::{Card, Rank, Suit};
use klondike_rs::model::deck::{deal, new_deck, shuffle_new_deck};
use klondike_rs::model::error::GameError;
use klondike_rs::model::game::{Game, Play, Selection, StackRef};
use klondike_rs::model::settings::GameSettings;
use klondike_rs::model::stack::{Orientation, Stack};

fn card(rank: u8, suit: Suit) -> Card {
    Card::new(Rank::from_value(rank).unwrap(), suit)
}

fn settings(draw: usize, columns: u8, take: bool) -> GameSettings {
    GameSettings { draw_from_stock_len: draw, tableaux_len: columns, take_from_foundation: take }
}

/// A game without columns whose stock gives `draws` one by one, the first of them first.
fn game_drawing(draws: &[Card]) -> Game {
    let mut deck: Vec<Card> = draws.to_vec();
    deck.reverse();
    Game::new(settings(1, 0, true), &deck).unwrap()
}

/// Draws one card and puts it on the foundation of its suit.
fn draw_to_foundation(game: &mut Game) -> Result<(), GameError> {
    game.draw()?;
    let top = game.talon().len() - 1;
    let suit = game.talon().top().unwrap().suit;
    game.select_at(StackRef::Talon, top)?;
    game.move_selection_to(StackRef::Foundation(suit))
}

fn ids_of(game: &Game) -> Vec<(u8, usize)> {
    let mut all: Vec<(u8, usize)> = Vec::new();
    let mut stacks: Vec<&Stack> = vec![game.stock(), game.talon()];
    for (_, stack) in game.foundation() {
        stacks.push(stack);
    }
    for stack in game.tableaux() {
        stacks.push(stack);
    }
    for stack in stacks {
        for i in 0..stack.len() {
            let c = stack.get(i).unwrap();
            all.push((c.rank.value(), c.suit.index()));
        }
    }
    all.sort();
    all
}

fn held_count(game: &Game) -> usize {
    let mut n = 0;
    let mut stacks: Vec<&Stack> = vec![game.stock(), game.talon()];
    for (_, stack) in game.foundation() {
        stacks.push(stack);
    }
    for stack in game.tableaux() {
        stacks.push(stack);
    }
    for stack in stacks {
        if stack.details().held {
            n += 1;
        }
    }
    n
}

#[test]
fn king_moves_to_empty_tableau() {
    // One column that holds the ace of hearts; the stock gives the king of spades.
    let deck = vec![card(1, Suit::Hearts), card(13, Suit::Spades)];
    let mut game = Game::new(settings(1, 1, true), &deck).unwrap();
    assert_eq!(game.select_at(StackRef::Tableau(0), 0), Ok(()));
    assert_eq!(game.move_selection_to(StackRef::Foundation(Suit::Hearts)), Ok(()));
    assert!(game.tableaux()[0].is_empty());
    assert_eq!(game.draw(), Ok(()));
    assert_eq!(game.select_at(StackRef::Talon, 0), Ok(()));
    assert_eq!(game.move_selection_to(StackRef::Tableau(0)), Ok(()));
    let column = game.tableaux()[0];
    assert_eq!(column.len(), 1);
    assert_eq!(*column.top().unwrap(), Card { rank: Rank::King, suit: Suit::Spades, face_up: true });
    assert!(game.talon().is_empty());
    assert_eq!(game.selection(), None);
}

#[test]
fn only_a_king_moves_to_empty_tableau() {
    let deck = vec![card(1, Suit::Hearts), card(12, Suit::Spades)];
    let mut game = Game::new(settings(1, 1, true), &deck).unwrap();
    game.select_at(StackRef::Tableau(0), 0).unwrap();
    game.move_selection_to(StackRef::Foundation(Suit::Hearts)).unwrap();
    game.draw().unwrap();
    game.select_at(StackRef::Talon, 0).unwrap();
    assert_eq!(game.move_selection_to(StackRef::Tableau(0)), Err(GameError::InvalidRun));
    assert_eq!(game.talon().len(), 1);
    assert!(game.tableaux()[0].is_empty());
    assert_eq!(game.selection(), None);
    assert!(!game.talon().details().held);
}

#[test]
fn ace_moves_from_talon_to_empty_foundation() {
    let mut game = game_drawing(&[card(1, Suit::Hearts)]);
    assert_eq!(game.draw(), Ok(()));
    assert_eq!(*game.talon().top().unwrap(), Card { rank: Rank::Ace, suit: Suit::Hearts, face_up: true });
    assert_eq!(game.select_at(StackRef::Talon, 0), Ok(()));
    assert_eq!(game.selection(), Some(Selection { source: StackRef::Talon, index: 0 }));
    assert!(game.talon().details().held);
    assert_eq!(game.talon().details().selection_index, Some(0));
    assert_eq!(game.move_selection_to(StackRef::Foundation(Suit::Hearts)), Ok(()));
    let hearts = game.stack(StackRef::Foundation(Suit::Hearts)).unwrap();
    assert_eq!(hearts.len(), 1);
    assert!(game.talon().is_empty());
    assert!(!game.is_won());
}

#[test]
fn seven_does_not_go_on_five_in_foundation() {
    let draws: Vec<Card> = vec![1, 2, 3, 4, 5, 7].into_iter().map(|r| card(r, Suit::Hearts)).collect();
    let mut game = game_drawing(&draws);
    for _ in 0..5 {
        assert_eq!(draw_to_foundation(&mut game), Ok(()));
    }
    let hearts = StackRef::Foundation(Suit::Hearts);
    assert_eq!(game.stack(hearts).unwrap().top().unwrap().rank, Rank::Five);
    game.draw().unwrap();
    assert_eq!(game.select_at(StackRef::Talon, 0), Ok(()));
    assert_eq!(game.move_selection_to(hearts), Err(GameError::InvalidRunLength));
    assert_eq!(game.stack(hearts).unwrap().len(), 5);
    assert_eq!(game.talon().len(), 1);
    assert_eq!(game.talon().top().unwrap().rank, Rank::Seven);
    assert_eq!(game.selection(), None);
}

#[test]
fn wrong_suit_does_not_go_on_foundation() {
    let mut game = game_drawing(&[card(1, Suit::Spades)]);
    game.draw().unwrap();
    game.select_at(StackRef::Talon, 0).unwrap();
    assert_eq!(game.move_selection_to(StackRef::Foundation(Suit::Hearts)), Err(GameError::InvalidRun));
    assert!(game.stack(StackRef::Foundation(Suit::Hearts)).unwrap().is_empty());
}

#[test]
fn red_five_moves_onto_black_six_and_source_flips() {
    // Column 0: six of clubs. Column 1: a hidden nine of spades under the five of diamonds.
    let deck = vec![card(6, Suit::Clubs), card(9, Suit::Spades), card(5, Suit::Diamonds)];
    let mut game = Game::new(settings(3, 2, true), &deck).unwrap();
    assert!(!game.tableaux()[1].get(0).unwrap().face_up);
    assert_eq!(game.tableaux()[1].details().visible_index, 1);
    assert_eq!(game.select_at(StackRef::Tableau(1), 1), Ok(()));
    assert_eq!(game.move_selection_to(StackRef::Tableau(0)), Ok(()));
    let columns = game.tableaux();
    assert_eq!(columns[0].len(), 2);
    assert_eq!(*columns[0].get(0).unwrap(), Card { rank: Rank::Six, suit: Suit::Clubs, face_up: true });
    assert_eq!(*columns[0].get(1).unwrap(), Card { rank: Rank::Five, suit: Suit::Diamonds, face_up: true });
    assert_eq!(columns[1].len(), 1);
    assert_eq!(*columns[1].top().unwrap(), Card { rank: Rank::Nine, suit: Suit::Spades, face_up: true });
    assert_eq!(columns[1].details().visible_index, 0);
    assert_eq!(columns[1].details().spread_index, 0);
    assert_eq!(columns[0].details().visible_index, 0);
    assert_eq!(game.selection(), None);
    assert_eq!(held_count(&game), 0);
}

#[test]
fn whole_run_moves_between_columns() {
    // Column 0: seven of spades. Column 1: hidden king, then after moves a run 6H 5C is built.
    let deck = vec![
        card(7, Suit::Spades),
        card(13, Suit::Hearts),
        card(6, Suit::Hearts),
        card(2, Suit::Clubs),
        card(2, Suit::Diamonds),
        card(5, Suit::Clubs),
    ];
    let mut game = Game::new(settings(1, 3, true), &deck).unwrap();
    // Column 2 holds 2C, 2D hidden and 5C shown. Move 5C onto 6H in column 1.
    assert_eq!(game.select_at(StackRef::Tableau(2), 2), Ok(()));
    assert_eq!(game.move_selection_to(StackRef::Tableau(1)), Ok(()));
    // Now move the run 6H 5C from column 1 onto 7S in column 0.
    assert_eq!(game.select_at(StackRef::Tableau(1), 1), Ok(()));
    assert_eq!(game.move_selection_to(StackRef::Tableau(0)), Ok(()));
    let columns = game.tableaux();
    let ranks: Vec<u8> = (0..3).map(|i| columns[0].get(i).unwrap().rank.value()).collect();
    assert_eq!(ranks, vec![7, 6, 5]);
    assert_eq!(columns[1].len(), 1);
    assert!(columns[1].top().unwrap().face_up);
    assert_eq!(columns[2].len(), 2);
    assert!(columns[2].top().unwrap().face_up);
    assert!(!columns[2].get(0).unwrap().face_up);
}

#[test]
fn draw_recycles_ten_cards() {
    let deck: Vec<Card> = (1..=10).map(|r| card(r, Suit::Clubs)).collect();
    let mut game = Game::new(settings(10, 0, true), &deck).unwrap();
    assert_eq!(game.stock().len(), 10);
    assert_eq!(game.draw(), Ok(()));
    assert!(game.stock().is_empty());
    assert_eq!(game.talon().len(), 10);
    let talon: Vec<Card> = (0..10).map(|i| *game.talon().get(i).unwrap()).collect();
    assert!(talon.iter().all(|c| c.face_up));
    // The top of the stock was drawn first and lies lowest on the talon.
    assert_eq!(talon[0].rank, Rank::Ten);
    assert_eq!(talon[9].rank, Rank::Ace);
    assert_eq!(game.draw(), Ok(()));
    assert!(game.talon().is_empty());
    assert_eq!(game.stock().len(), 10);
    for i in 0..10 {
        let c = game.stock().get(i).unwrap();
        assert!(!c.face_up);
        assert_eq!(c.rank, talon[9 - i].rank);
        assert_eq!(c.suit, Suit::Clubs);
    }
    assert_eq!(game.stock().details().visible_index, 10);
    assert_eq!(game.talon().details().len, 0);
}

#[test]
fn all_cards_on_foundations_wins() {
    let mut draws: Vec<Card> = Vec::new();
    for suit in [Suit::Clubs, Suit::Diamonds, Suit::Hearts, Suit::Spades] {
        for rank in 1..=13 {
            draws.push(card(rank, suit));
        }
    }
    let mut game = game_drawing(&draws);
    for n in 0..52 {
        assert!(!game.is_won(), "won after {} cards", n);
        assert_eq!(draw_to_foundation(&mut game), Ok(()));
    }
    assert!(game.is_won());
    assert!(game.stock().is_empty());
    assert!(game.talon().is_empty());
    for (suit, stack) in game.foundation() {
        assert_eq!(stack.len(), 13);
        for k in 0..13 {
            let c = stack.get(k).unwrap();
            assert_eq!(c.rank.value() as usize, k + 1);
            assert_eq!(c.suit, suit);
            assert!(c.face_up);
        }
    }
    assert_eq!(game.draw(), Err(GameError::NothingToRecycle));
}

#[test]
fn cards_are_conserved_through_play() {
    let mut game = Game::with_seed(GameSettings::default(), 12345).unwrap();
    let mut full: Vec<(u8, usize)> = Vec::new();
    for suit in 0..4usize {
        for rank in 1..=13u8 {
            full.push((rank, suit));
        }
    }
    full.sort();
    assert_eq!(ids_of(&game), full);
    for step in 0..200usize {
        let _ = game.draw();
        assert_eq!(ids_of(&game), full);
        if !game.talon().is_empty() {
            let top = game.talon().len() - 1;
            let _ = game.select_at(StackRef::Talon, top);
            assert!(held_count(&game) <= 1);
            let _ = game.move_selection_to(StackRef::Tableau((step % 7) as u8));
            assert_eq!(held_count(&game), 0);
            assert_eq!(ids_of(&game), full);
        }
        let column = (step % 7) as u8;
        let len = game.tableaux()[column as usize].len();
        if len > 0 {
            let _ = game.select_at(StackRef::Tableau(column), len - 1);
            let suit = game.tableaux()[column as usize].top().unwrap().suit;
            let _ = game.move_selection_to(StackRef::Foundation(suit));
            assert_eq!(ids_of(&game), full);
        }
    }
    for (suit, stack) in game.foundation() {
        for k in 0..stack.len() {
            assert_eq!(stack.get(k).unwrap().rank.value() as usize, k + 1);
            assert_eq!(stack.get(k).unwrap().suit, suit);
        }
    }
}

#[test]
fn only_one_selection_at_a_time() {
    let deck = vec![card(6, Suit::Clubs), card(9, Suit::Spades), card(5, Suit::Diamonds)];
    let mut game = Game::new(settings(3, 2, true), &deck).unwrap();
    assert_eq!(game.select_at(StackRef::Tableau(0), 0), Ok(()));
    assert_eq!(game.select_at(StackRef::Tableau(1), 1), Err(GameError::InvalidSelection));
    assert_eq!(game.select_at(StackRef::Tableau(0), 0), Err(GameError::InvalidSelection));
    assert_eq!(held_count(&game), 1);
    assert_eq!(game.selection(), Some(Selection { source: StackRef::Tableau(0), index: 0 }));
    game.cancel_selection();
    assert_eq!(held_count(&game), 0);
    assert_eq!(game.selection(), None);
    game.cancel_selection();
    assert_eq!(game.selection(), None);
    assert_eq!(game.select_at(StackRef::Tableau(1), 1), Ok(()));
}

#[test]
fn run_must_be_face_up_and_in_sequence() {
    // Column 2: hidden 8S, hidden 7H, shown 6C. Column 1: hidden 2C, shown 9D.
    let deck = vec![
        card(1, Suit::Clubs),
        card(2, Suit::Clubs),
        card(9, Suit::Diamonds),
        card(8, Suit::Spades),
        card(7, Suit::Hearts),
        card(6, Suit::Clubs),
    ];
    let mut game = Game::new(settings(1, 3, true), &deck).unwrap();
    assert_eq!(game.select_at(StackRef::Tableau(2), 1), Err(GameError::InvalidRun));
    assert_eq!(game.select_at(StackRef::Tableau(2), 0), Err(GameError::InvalidRun));
    assert_eq!(game.select_at(StackRef::Tableau(2), 3), Err(GameError::InvalidSelection));
    assert_eq!(game.select_at(StackRef::Tableau(3), 0), Err(GameError::IndexOutOfRange));
    assert_eq!(game.selection(), None);
    // Put the ace on column... it does not fit on the six: same colour.
    assert_eq!(game.select_at(StackRef::Tableau(0), 0), Ok(()));
    assert_eq!(game.move_selection_to(StackRef::Tableau(2)), Err(GameError::InvalidRun));
    // A run that breaks: 9D with 6C on it cannot be built, so build 6C on 7H instead.
    assert_eq!(game.select_at(StackRef::Tableau(2), 2), Ok(()));
    assert_eq!(game.move_selection_to(StackRef::Tableau(1)), Err(GameError::InvalidRun));
    assert_eq!(game.tableaux()[2].len(), 3);
}

#[test]
fn accepted_runs_step_down_and_alternate() {
    let deck = vec![
        card(7, Suit::Spades),
        card(13, Suit::Hearts),
        card(6, Suit::Hearts),
        card(2, Suit::Clubs),
        card(2, Suit::Diamonds),
        card(5, Suit::Clubs),
    ];
    let mut game = Game::new(settings(1, 3, true), &deck).unwrap();
    game.select_at(StackRef::Tableau(2), 2).unwrap();
    game.move_selection_to(StackRef::Tableau(1)).unwrap();
    assert_eq!(game.select_at(StackRef::Tableau(1), 1), Ok(()));
    let column = game.tableaux()[1];
    for k in 1..column.len() - 1 {
        let lower = column.get(k).unwrap();
        let upper = column.get(k + 1).unwrap();
        assert_eq!(lower.rank.value(), upper.rank.value() + 1);
        assert_ne!(lower.is_red(), upper.is_red());
    }
    // The hidden king below is no part of a run.
    game.cancel_selection();
    assert_eq!(game.select_at(StackRef::Tableau(1), 0), Err(GameError::InvalidRun));
}

#[test]
fn stock_and_talon_rules() {
    let mut game = game_drawing(&[card(3, Suit::Hearts), card(4, Suit::Spades)]);
    assert_eq!(game.select_at(StackRef::Stock, 0), Err(GameError::ForbiddenSource));
    assert_eq!(game.select_at(StackRef::Talon, 0), Err(GameError::InvalidSelection));
    assert_eq!(game.move_selection_to(StackRef::Tableau(0)), Err(GameError::NoActiveSelection));
    game.draw().unwrap();
    game.draw().unwrap();
    assert_eq!(game.select_at(StackRef::Talon, 0), Err(GameError::InvalidSelection));
    assert_eq!(game.select_at(StackRef::Talon, 2), Err(GameError::InvalidSelection));
    assert_eq!(game.select_at(StackRef::Talon, 1), Ok(()));
    assert_eq!(game.move_selection_to(StackRef::Stock), Err(GameError::ForbiddenTarget));
    assert_eq!(game.selection(), None);
    game.select_at(StackRef::Talon, 1).unwrap();
    assert_eq!(game.move_selection_to(StackRef::Talon), Err(GameError::ForbiddenTarget));
    game.select_at(StackRef::Talon, 1).unwrap();
    assert_eq!(game.move_selection_to(StackRef::Tableau(0)), Err(GameError::IndexOutOfRange));
    assert_eq!(game.talon().len(), 2);
}

#[test]
fn draw_puts_selection_back_first() {
    let mut game = game_drawing(&[card(3, Suit::Hearts), card(4, Suit::Spades)]);
    game.draw().unwrap();
    game.select_at(StackRef::Talon, 0).unwrap();
    assert_eq!(game.draw(), Ok(()));
    assert_eq!(game.selection(), None);
    assert_eq!(held_count(&game), 0);
    assert_eq!(game.talon().len(), 2);
    assert_eq!(game.talon().top().unwrap().rank, Rank::Four);
}

#[test]
fn draw_takes_three_and_spreads_them() {
    let deck: Vec<Card> = (1..=7).map(|r| card(r, Suit::Spades)).collect();
    let mut game = Game::new(settings(3, 0, true), &deck).unwrap();
    game.draw().unwrap();
    assert_eq!(game.stock().len(), 4);
    assert_eq!(game.talon().len(), 3);
    assert_eq!(game.talon().details().spread_index, 0);
    let ranks: Vec<u8> = (0..3).map(|i| game.talon().get(i).unwrap().rank.value()).collect();
    assert_eq!(ranks, vec![7, 6, 5]);
    game.draw().unwrap();
    assert_eq!(game.talon().len(), 6);
    assert_eq!(game.talon().details().spread_index, 3);
    assert_eq!(game.talon().details().visible_index, 0);
    game.draw().unwrap();
    assert_eq!(game.stock().len(), 0);
    assert_eq!(game.talon().len(), 7);
    assert_eq!(game.talon().details().spread_index, 6);
    assert_eq!(game.talon().top().unwrap().rank, Rank::Ace);
}

#[test]
fn foundation_gives_back_only_where_allowed() {
    for allowed in [true, false] {
        let mut deck = vec![card(1, Suit::Hearts), card(2, Suit::Spades)];
        deck.reverse();
        let mut game = Game::new(settings(1, 0, allowed), &deck).unwrap();
        draw_to_foundation(&mut game).unwrap();
        let hearts = StackRef::Foundation(Suit::Hearts);
        if allowed {
            assert_eq!(game.select_at(hearts, 1), Err(GameError::InvalidSelection));
            assert_eq!(game.select_at(hearts, 0), Ok(()));
            // It cannot be put back on the foundation it came from.
            assert_eq!(game.move_selection_to(hearts), Err(GameError::InvalidRunLength));
            assert_eq!(game.stack(hearts).unwrap().len(), 1);
        } else {
            assert_eq!(game.select_at(hearts, 0), Err(GameError::ForbiddenSource));
        }
        assert_eq!(game.select_at(StackRef::Foundation(Suit::Clubs), 0), if allowed {
            Err(GameError::InvalidSelection)
        } else {
            Err(GameError::ForbiddenSource)
        });
    }
}

#[test]
fn only_one_card_goes_to_a_foundation() {
    // Column 0: 2H shown. Column 1: hidden 9C, shown AS... build run 2H AS? Not a run to a foundation.
    let deck = vec![card(2, Suit::Hearts), card(9, Suit::Clubs), card(1, Suit::Spades)];
    let mut game = Game::new(settings(1, 2, true), &deck).unwrap();
    game.select_at(StackRef::Tableau(1), 1).unwrap();
    game.move_selection_to(StackRef::Tableau(0)).unwrap();
    assert_eq!(game.select_at(StackRef::Tableau(0), 0), Ok(()));
    assert_eq!(game.move_selection_to(StackRef::Foundation(Suit::Hearts)), Err(GameError::InvalidRunLength));
    assert_eq!(game.tableaux()[0].len(), 2);
}

#[test]
fn deal_lays_out_columns_and_stock() {
    let deck = new_deck();
    let layout = deal(&deck, 7).unwrap();
    assert_eq!(layout.tableaux.len(), 7);
    assert_eq!(layout.foundation.len(), 4);
    assert!(layout.talon.is_empty());
    assert_eq!(layout.stock.len(), 24);
    let mut next = 0;
    for (i, column) in layout.tableaux.iter().enumerate() {
        assert_eq!(column.len(), i + 1);
        assert_eq!(column.details().orientation, Orientation::Vertical);
        assert_eq!(column.details().visible_index, i);
        assert_eq!(column.details().spread_index, i);
        for k in 0..=i {
            let c = column.get(k).unwrap();
            assert_eq!(c.face_up, k == i);
            assert_eq!((c.rank, c.suit), (deck[next].rank, deck[next].suit));
            next += 1;
        }
    }
    for k in 0..24 {
        let c = layout.stock.get(k).unwrap();
        assert!(!c.face_up);
        assert_eq!((c.rank, c.suit), (deck[28 + k].rank, deck[28 + k].suit));
    }
    assert_eq!(layout.stock.details().visible_index, 24);
    assert_eq!(layout.stock.details().orientation, Orientation::Horizontal);
}

#[test]
fn deal_needs_enough_cards() {
    let deck: Vec<Card> = new_deck().into_iter().take(27).collect();
    assert_eq!(deal(&deck, 7).err(), Some(GameError::InsufficientCards));
    assert!(deal(&deck, 6).is_ok());
    assert_eq!(Game::new(settings(3, 7, true), &deck).err(), Some(GameError::InsufficientCards));
    assert_eq!(Game::with_seed(settings(3, 10, true), 1).err(), Some(GameError::InsufficientCards));
    assert!(Game::with_seed(settings(3, 9, true), 1).is_ok());
    let none: Vec<Card> = Vec::new();
    assert!(deal(&none, 0).is_ok());
}

#[test]
fn shuffle_is_a_permutation_and_repeats() {
    let first = shuffle_new_deck(7);
    let again = shuffle_new_deck(7);
    let other = shuffle_new_deck(8);
    assert_eq!(first, again);
    assert_ne!(first, other);
    assert_ne!(first, new_deck());
    assert_eq!(first.len(), 52);
    let mut seen: Vec<(u8, usize)> = first.iter().map(|c| (c.rank.value(), c.suit.index())).collect();
    seen.sort();
    seen.dedup();
    assert_eq!(seen.len(), 52);
    assert!(first.iter().all(|c| !c.face_up));
}

#[test]
fn new_deck_is_in_order() {
    let deck = new_deck();
    assert_eq!(deck.len(), 52);
    assert_eq!(deck[0], Card { rank: Rank::Ace, suit: Suit::Clubs, face_up: false });
    assert_eq!(deck[12], Card { rank: Rank::King, suit: Suit::Clubs, face_up: false });
    assert_eq!(deck[13], Card { rank: Rank::Ace, suit: Suit::Diamonds, face_up: false });
    assert_eq!(deck[51], Card { rank: Rank::King, suit: Suit::Spades, face_up: false });
}

#[test]
fn stock_is_not_won_state() {
    let game = Game::with_seed(GameSettings::default(), 3).unwrap();
    assert!(!game.is_won());
    assert_eq!(game.stock().len(), 24);
    assert_eq!(game.tableaux().len(), 7);
    assert!(game.stack(StackRef::Tableau(7)).is_none());
    assert!(game.stack(StackRef::Tableau(6)).is_some());
    assert_eq!(game.settings(), GameSettings::default());
}

#[test]
fn plays_are_applied() {
    let mut game = game_drawing(&[card(1, Suit::Hearts), card(4, Suit::Spades)]);
    assert_eq!(game.apply(Play::MoveTo(StackRef::Talon)), Err(GameError::NoActiveSelection));
    assert_eq!(game.apply(Play::Draw), Ok(()));
    assert_eq!(game.apply(Play::Select(StackRef::Talon, 0)), Ok(()));
    assert_eq!(game.apply(Play::Cancel), Ok(()));
    assert_eq!(game.selection(), None);
    assert_eq!(game.apply(Play::Cancel), Ok(()));
    assert_eq!(game.apply(Play::Select(StackRef::Talon, 0)), Ok(()));
    assert_eq!(game.apply(Play::MoveTo(StackRef::Foundation(Suit::Hearts))), Ok(()));
    assert_eq!(game.stack(StackRef::Foundation(Suit::Hearts)).unwrap().len(), 1);
    assert_eq!(game.apply(Play::Select(StackRef::Stock, 0)), Err(GameError::ForbiddenSource));
    assert_eq!(game.apply(Play::Draw), Ok(()));
    assert_eq!(game.apply(Play::Draw), Ok(()));
    assert_eq!(game.stock().len(), 1);
    assert_eq!(game.apply(Play::Draw), Ok(()));
    assert_eq!(game.apply(Play::Select(StackRef::Talon, 0)), Ok(()));
    assert_eq!(game.apply(Play::MoveTo(StackRef::Foundation(Suit::Spades))), Err(GameError::InvalidRunLength));
    assert_eq!(ids_of(&game), vec![(1, 2), (4, 3)]);
}

#[test]
fn seed_fixes_the_whole_game() {
    let deck = shuffle_new_deck(99);
    let dealt = Game::new(GameSettings::default(), &deck).unwrap();
    let seeded = Game::with_seed(GameSettings::default(), 99).unwrap();
    assert_eq!(seeded.selection(), None);
    assert_eq!(seeded.stock().len(), dealt.stock().len());
    for i in 0..seeded.stock().len() {
        assert_eq!(seeded.stock().get(i), dealt.stock().get(i));
    }
    let (left, right) = (seeded.tableaux(), dealt.tableaux());
    for c in 0..7 {
        assert_eq!(left[c].len(), right[c].len());
        for i in 0..left[c].len() {
            assert_eq!(left[c].get(i), right[c].get(i));
        }
    }
    // Column 3 holds the cards 6 to 9 of the shuffled deck, the last one face up.
    assert_eq!(left[3].get(3).map(|c| (c.rank, c.suit, c.face_up)), Some((deck[9].rank, deck[9].suit, true)));
    assert_eq!(left[3].get(0).map(|c| (c.rank, c.suit, c.face_up)), Some((deck[6].rank, deck[6].suit, false)));
}
