use klondike_rs::display::blank::{blank_line, can_paint, BlankPainter};
use klondike_rs::display::bounds::Bounds;
use klondike_rs::display::game::{draw_game, KlondikeDisplay, Placement};
use klondike_rs::display::geometry::{goto, point2, size2, Point2D, Rect, Size2D};
use klondike_rs::display::selector::{horizontal, vertical, SelectorWidget};
use klondike_rs::display::stack::common::{
    can_place, can_place_all, card_coords, card_iter, card_shift, Offsets,
};
use klondike_rs::display::stack::StackWidget;
use klondike_rs::display::Widget;
use klondike_rs::model::card::{Card, Rank, Suit};
use klondike_rs::model::game::{Game, StackRef};
use klondike_rs::model::settings::{DisplaySettings, GameSettings, Settings};
use klondike_rs::model::stack::{Orientation, Stack, StackDetails};
use klondike_rs::terminal::cursor_to;
use klondike_rs::utils::coords::Coords;

fn offsets() -> Offsets {
    Offsets {
        unspread: Coords::from_xy(1, 0),
        collapsed_spread: Coords::from_xy(0, 1),
        uncollapsed_spread: Coords::from_xy(0, 2),
        selected: Coords::from_xy(10, 100),
        collapse_unspread_len: 0,
        collapse_spread_len: 1,
    }
}

fn details() -> StackDetails {
    StackDetails {
        orientation: Orientation::Vertical,
        len: 7,
        visible_index: 2,
        spread_index: 4,
        selection_index: None,
        held: false,
    }
}

#[test]
fn goto_counts_from_one() {
    assert_eq!(goto(point2(4, 2)), "\x1b[3;5H");
    assert_eq!(goto(Point2D { x: 0, y: 0 }), "\x1b[1;1H");
    assert_eq!(goto(Point2D { x: 65534, y: 9 }), "\x1b[10;65535H");
    assert_eq!(goto(Point2D { x: 99, y: 1009 }), "\x1b[1010;100H");
    assert_eq!(cursor_to(Coords::from_xy(4, 2)), "\x1b[3;5H");
    assert_eq!(cursor_to(Coords::from_xy(0, 0)), "\x1b[1;1H");
}

#[test]
fn horizontal_selector() {
    let widget = SelectorWidget { origin: point2(4, 2), len: 3, orientation: Orientation::Horizontal };
    assert_eq!(widget.render(), "\x1b[3;5H\x1b[38;5;15m╘═╛");
    assert_eq!(widget.bounds(), Rect { origin: point2(4, 2), size: Size2D { width: 3, height: 1 } });
    let long = SelectorWidget { origin: point2(0, 0), len: 5, orientation: Orientation::Horizontal };
    assert_eq!(long.render(), "\x1b[1;1H\x1b[38;5;15m╘═══╛");
    let two = SelectorWidget { origin: point2(0, 0), len: 2, orientation: Orientation::Horizontal };
    assert_eq!(two.render(), "\x1b[1;1H\x1b[38;5;15m╘╛");
    let one = SelectorWidget { origin: point2(0, 0), len: 1, orientation: Orientation::Horizontal };
    assert_eq!(one.render(), "\x1b[1;1H\x1b[38;5;15m╘");
    let none = SelectorWidget { origin: point2(0, 0), len: 0, orientation: Orientation::Horizontal };
    assert_eq!(none.render(), "\x1b[1;1H\x1b[38;5;15m");
}

#[test]
fn vertical_selector() {
    let widget = SelectorWidget { origin: point2(4, 2), len: 3, orientation: Orientation::Vertical };
    let next = "\x1b[2D\x1b[1B";
    let expected = format!("\x1b[3;5H\x1b[38;5;15m╓╴{}║ {}╙╴{}", next, next, next);
    assert_eq!(widget.render(), expected);
    assert_eq!(widget.bounds(), Rect::new(point2(4, 2), size2(2, 3)));
}

#[test]
fn selector_parts() {
    let mut out = String::from("x");
    horizontal::write_start(&mut out);
    horizontal::write_next(&mut out);
    horizontal::write_middle(&mut out);
    horizontal::write_end(&mut out);
    assert_eq!(out, "x╘═╛");
    let mut column = String::new();
    vertical::write_start(&mut column);
    vertical::write_middle(&mut column);
    vertical::write_end(&mut column);
    assert_eq!(column, "╓╴║ ╙╴");
    vertical::write_next(&mut column);
    assert_eq!(column, "╓╴║ ╙╴\x1b[2D\x1b[1B");
    assert_eq!(horizontal::bounds(point2(1, 2), 9), Rect::new(point2(1, 2), size2(9, 1)));
    assert_eq!(vertical::bounds(point2(1, 2), 9), Rect::new(point2(1, 2), size2(2, 9)));
}

#[test]
fn blank_excess_wipes_each_row() {
    let mut out = String::from("before");
    out.draw_blank_excess(Bounds::new(Coords::from_xy(2, 3), Coords::from_xy(4, 2)));
    assert_eq!(out, "before\x1b[39m\x1b[4;3H    \x1b[5;3H    ");
    let mut flat = String::new();
    flat.draw_blank_excess(Bounds::new(Coords::from_xy(2, 3), Coords::from_xy(4, 0)));
    assert_eq!(flat, "\x1b[39m");
    let mut thin = String::new();
    thin.draw_blank_excess(Bounds::new(Coords::from_xy(0, 0), Coords::from_xy(0, 1)));
    assert_eq!(thin, "\x1b[39m\x1b[1;1H");
    assert_eq!(blank_line(3), "   ");
    assert_eq!(blank_line(0), "");
    let b = Bounds::new(Coords::from_xy(2, 3), Coords::from_xy(4, 2));
    assert_eq!((b.width(), b.height()), (4, 2));
}

#[test]
fn card_coords_by_part_of_the_stack() {
    let base = Coords::from_xy(100, 50);
    let o = offsets();
    let d = details();
    assert_eq!(card_coords(base, 0, &o, &d), None);
    assert_eq!(card_coords(base, 1, &o, &d), None);
    assert_eq!(card_coords(base, 2, &o, &d), Some(Coords::from_xy(100, 50)));
    assert_eq!(card_coords(base, 3, &o, &d), Some(Coords::from_xy(101, 50)));
    assert_eq!(card_coords(base, 4, &o, &d), Some(Coords::from_xy(102, 50)));
    assert_eq!(card_coords(base, 5, &o, &d), Some(Coords::from_xy(102, 51)));
    assert_eq!(card_coords(base, 6, &o, &d), Some(Coords::from_xy(102, 53)));
    assert_eq!(card_coords(base, 8, &o, &d), Some(Coords::from_xy(102, 57)));
}

#[test]
fn card_coords_with_collapsed_bottom() {
    let base = Coords::from_xy(0, 0);
    let mut o = offsets();
    o.collapse_unspread_len = 1;
    o.collapse_spread_len = 0;
    let d = details();
    assert_eq!(card_coords(base, 2, &o, &d), None);
    assert_eq!(card_coords(base, 3, &o, &d), Some(Coords::from_xy(0, 0)));
    assert_eq!(card_coords(base, 4, &o, &d), Some(Coords::from_xy(1, 0)));
    assert_eq!(card_coords(base, 6, &o, &d), Some(Coords::from_xy(1, 4)));
}

#[test]
fn held_cards_are_shifted() {
    let base = Coords::from_xy(0, 0);
    let o = offsets();
    let mut d = details();
    d.selection_index = Some(5);
    d.held = true;
    assert_eq!(card_shift(4, &o, &d), Coords::from_xy(0, 0));
    assert_eq!(card_shift(5, &o, &d), Coords::from_xy(10, 100));
    assert_eq!(card_shift(6, &o, &d), Coords::from_xy(10, 100));
    assert_eq!(card_coords(base, 4, &o, &d), Some(Coords::from_xy(2, 0)));
    assert_eq!(card_coords(base, 5, &o, &d), Some(Coords::from_xy(12, 101)));
    d.held = false;
    assert_eq!(card_shift(5, &o, &d), Coords::from_xy(0, 0));
    assert_eq!(card_coords(base, 5, &o, &d), Some(Coords::from_xy(2, 1)));
    d.held = true;
    d.selection_index = None;
    assert_eq!(card_shift(5, &o, &d), Coords::from_xy(0, 0));
}

#[test]
fn card_iter_leaves_out_hidden_cards() {
    let mut stack = Stack::new(Orientation::Vertical);
    stack.push(Card::new(Rank::Four, Suit::Clubs));
    stack.push(Card::new(Rank::Nine, Suit::Clubs));
    let eight = Card { rank: Rank::Eight, suit: Suit::Hearts, face_up: true };
    let seven = Card { rank: Rank::Seven, suit: Suit::Clubs, face_up: true };
    stack.push(eight);
    stack.push(seven);
    stack.select(3).unwrap();
    let widget = StackWidget {
        bounds: Bounds::new(Coords::from_xy(5, 6), Coords::from_xy(8, 10)),
        stack: &stack,
    };
    let mut o = offsets();
    o.collapse_spread_len = 0;
    let placed = card_iter(&widget, &o);
    assert_eq!(placed, vec![(2, Coords::from_xy(5, 6), eight), (3, Coords::from_xy(15, 108), seven)]);
    let empty = Stack::new(Orientation::Vertical);
    let nothing = StackWidget { bounds: widget.bounds, stack: &empty };
    assert_eq!(card_iter(&nothing, &o), vec![]);
}

#[test]
fn game_is_laid_out_in_rows() {
    let game = Game::with_seed(GameSettings::default(), 1).unwrap();
    let mut display = KlondikeDisplay::new();
    draw_game(&mut display, &game);
    let placements = display.placements();
    assert_eq!(placements.len(), 13);
    let h = Orientation::Horizontal;
    assert_eq!(placements[0], Placement { origin: Coords::from_xy(1, 0), orientation: h, stack: StackRef::Stock });
    assert_eq!(placements[1], Placement { origin: Coords::from_xy(12, 0), orientation: h, stack: StackRef::Talon });
    let suits = [Suit::Clubs, Suit::Diamonds, Suit::Hearts, Suit::Spades];
    for i in 0..4 {
        assert_eq!(
            placements[2 + i],
            Placement {
                origin: Coords::from_xy(34 + 11 * i as i32, 0),
                orientation: h,
                stack: StackRef::Foundation(suits[i]),
            }
        );
    }
    for i in 0..7 {
        assert_eq!(
            placements[6 + i],
            Placement {
                origin: Coords::from_xy(1 + 11 * i as i32, 5),
                orientation: Orientation::Vertical,
                stack: StackRef::Tableau(i as u8),
            }
        );
    }
    draw_game(&mut display, &game);
    assert_eq!(display.placements().len(), 26);
    display.clear();
    assert!(display.placements().is_empty());
}

#[test]
fn settings_have_defaults() {
    let s = Settings::default();
    assert_eq!(s.display, DisplaySettings { color: true, unicode: true });
    assert_eq!(s.game, GameSettings { draw_from_stock_len: 3, tableaux_len: 7, take_from_foundation: true });
    assert_eq!(DisplaySettings::default(), DisplaySettings { color: true, unicode: true });
    let indices: Vec<u8> = GameSettings::default().tableaux_indices().collect();
    assert_eq!(indices, vec![0, 1, 2, 3, 4, 5, 6]);
    let none = GameSettings { draw_from_stock_len: 1, tableaux_len: 0, take_from_foundation: false };
    assert_eq!(none.tableaux_indices().count(), 0);
}

#[test]
fn places_that_cannot_be_computed_are_told() {
    let base = Coords::from_xy(100, 50);
    let o = offsets();
    let d = details();
    assert!(can_place(base, 6, &o, &d));
    assert!(can_place(base, 0, &o, &d));
    // The spread begins below the first card that is drawn.
    let mut early = details();
    early.spread_index = 1;
    assert!(!can_place(base, 6, &o, &early));
    assert!(can_place(base, 0, &o, &early));
    // A coordinate leaves the range.
    let far = Coords::from_xy(i32::MAX, 0);
    assert!(can_place(far, 2, &o, &d));
    assert!(!can_place(far, 3, &o, &d));
    let mut wide = offsets();
    wide.uncollapsed_spread = Coords::from_xy(0, i32::MAX);
    assert!(can_place(base, 5, &wide, &d));
    assert!(!can_place(base, 6, &wide, &d));
    // The indices cannot be added.
    let mut long = offsets();
    long.collapse_unspread_len = usize::MAX;
    assert!(!can_place(base, 0, &long, &d));
}

#[test]
fn whole_stacks_are_checked() {
    let mut stack = Stack::new(Orientation::Vertical);
    stack.push(Card { rank: Rank::Eight, suit: Suit::Hearts, face_up: true });
    stack.push(Card { rank: Rank::Seven, suit: Suit::Clubs, face_up: true });
    let near = StackWidget { bounds: Bounds::new(Coords::from_xy(5, 6), Coords::from_xy(8, 10)), stack: &stack };
    let far = StackWidget {
        bounds: Bounds::new(Coords::from_xy(0, i32::MAX), Coords::from_xy(8, 10)),
        stack: &stack,
    };
    let o = offsets();
    assert!(can_place_all(&near, &o));
    assert!(!can_place_all(&far, &o));
}

#[test]
fn bounds_that_cannot_be_wiped_are_told() {
    assert!(can_paint(Bounds::new(Coords::from_xy(2, 3), Coords::from_xy(4, 2))));
    assert!(can_paint(Bounds::new(Coords::from_xy(2, 3), Coords::from_xy(0, -5))));
    assert!(!can_paint(Bounds::new(Coords::from_xy(2, 3), Coords::from_xy(-1, 2))));
    assert!(!can_paint(Bounds::new(Coords::from_xy(65535, 3), Coords::from_xy(4, 2))));
    assert!(can_paint(Bounds::new(Coords::from_xy(65535, 3), Coords::from_xy(4, 0))));
    assert!(!can_paint(Bounds::new(Coords::from_xy(0, 65534), Coords::from_xy(4, 2))));
    assert!(can_paint(Bounds::new(Coords::from_xy(0, 65533), Coords::from_xy(4, 2))));
    assert!(!can_paint(Bounds::new(Coords::from_xy(0, i32::MAX), Coords::from_xy(4, 2))));
    assert!(Coords::from_xy(65534, 0).is_addressable());
    assert!(!Coords::from_xy(65535, 0).is_addressable());
    assert!(!Coords::from_xy(0, -1).is_addressable());
}
