use klondike_rs::utils::coords::Coords;
use std::cmp::Ordering;

#[test]
fn constructors_and_parts() {
    assert_eq!(Coords::from_xy(3, -4), Coords { x: 3, y: -4 });
    assert_eq!(Coords::from_x(3), Coords { x: 3, y: 0 });
    assert_eq!(Coords::from_y(3), Coords { x: 0, y: 3 });
    assert_eq!(Coords::from_xy(3, -4).to_x(), Coords { x: 3, y: 0 });
    assert_eq!(Coords::from_xy(3, -4).to_y(), Coords { x: 0, y: -4 });
    assert_eq!(Coords::default(), Coords { x: 0, y: 0 });
}

#[test]
fn row_and_column_count_from_one() {
    assert_eq!(Coords::from_xy(4, 2).as_row_col(), (3, 5));
    assert_eq!(Coords::from_xy(4, 2).as_col_row(), (5, 3));
    assert_eq!(Coords::from_xy(0, 0).as_row_col(), (1, 1));
    assert_eq!(Coords::from_xy(65534, 7).as_row_col(), (8, 65535));
    // A coordinate beyond sixteen bits is cut to its low bits first.
    assert_eq!(Coords::from_xy(65536 + 4, -65536 + 2).as_row_col(), (3, 5));
}

#[test]
fn pair_counts_from_one() {
    assert_eq!(Coords::from((1u16, 1u16)), Coords { x: 0, y: 0 });
    assert_eq!(Coords::from((5u16, 3u16)), Coords { x: 4, y: 2 });
    assert_eq!(Coords::from((0u16, 65535u16)), Coords { x: -1, y: 65534 });
    let into: Coords = (7u16, 9u16).into();
    assert_eq!(into, Coords { x: 6, y: 8 });
}

#[test]
fn arithmetic() {
    let a = Coords::from_xy(3, -4);
    let b = Coords::from_xy(10, 20);
    assert_eq!(a + b, Coords::from_xy(13, 16));
    assert_eq!(a - b, Coords::from_xy(-7, -24));
    assert_eq!(-a, Coords::from_xy(-3, 4));
    assert_eq!(a * 3, Coords::from_xy(9, -12));
    assert_eq!(3 * a, Coords::from_xy(9, -12));
    assert_eq!(-2 * b, Coords::from_xy(-20, -40));
    let mut c = a;
    c += b;
    assert_eq!(c, Coords::from_xy(13, 16));
    c -= a;
    assert_eq!(c, b);
    c *= -1;
    assert_eq!(c, Coords::from_xy(-10, -20));
}

#[test]
fn division_rounds_towards_zero() {
    // The operator divides the scalar by each coordinate.
    assert_eq!(Coords::from_xy(2, 4) / 8, Coords::from_xy(4, 2));
    assert_eq!(Coords::from_xy(-3, 3) / 7, Coords::from_xy(-2, 2));
    assert_eq!(Coords::from_xy(3, -3) / -7, Coords::from_xy(-2, 2));
    assert_eq!(Coords::from_xy(100, -100) / 7, Coords::from_xy(0, 0));
    // The assignment divides each coordinate by the scalar.
    let mut c = Coords::from_xy(8, 4);
    c /= 2;
    assert_eq!(c, Coords::from_xy(4, 2));
    let mut d = Coords::from_xy(-7, 7);
    d /= 2;
    assert_eq!(d, Coords::from_xy(-3, 3));
    let mut e = Coords::from_xy(-7, 7);
    e /= -2;
    assert_eq!(e, Coords::from_xy(3, -3));
}

#[test]
fn order_is_partial() {
    let a = Coords::from_xy(1, 1);
    assert_eq!(a.partial_cmp(&Coords::from_xy(1, 1)), Some(Ordering::Equal));
    assert_eq!(a.partial_cmp(&Coords::from_xy(2, 2)), Some(Ordering::Less));
    assert_eq!(a.partial_cmp(&Coords::from_xy(0, 0)), Some(Ordering::Greater));
    assert_eq!(a.partial_cmp(&Coords::from_xy(2, 0)), None);
    assert_eq!(a.partial_cmp(&Coords::from_xy(1, 2)), None);
    assert!(a < Coords::from_xy(2, 2));
    assert!(!(a < Coords::from_xy(1, 2)));
    assert!(!(a > Coords::from_xy(1, 2)));
    assert!(a >= Coords::from_xy(1, 1));
}
