//! Screen coordinates: a pair of signed cell counts, used both as a position
//! and as an offset.

use std::cmp::Ordering;
use vstd::prelude::*;
use vstd::std_specs::cmp::PartialOrdSpecImpl;
use vstd::std_specs::convert::FromSpecImpl;
use vstd::std_specs::ops::{AddSpecImpl, DivSpecImpl, MulSpecImpl, NegSpecImpl, SubSpecImpl};

verus! {

/// A position or an offset on the screen, in character cells.
#[derive(Copy, Clone, Debug, PartialEq, Eq, Structural)]
pub struct Coords {
    pub x: i32,
    pub y: i32,
}

/// Whether a mathematical integer is the value of some `i32`.
pub open spec fn fits_i32(v: int) -> bool {
    i32::MIN <= v <= i32::MAX
}

/// Rust's integer division, which rounds towards zero, written with the
/// division of mathematical integers on operands that are not negative. The
/// divisor is not zero.
pub open spec fn truncating_div(a: int, b: int) -> int {
    if a >= 0 && b > 0 {
        a / b
    } else if a < 0 && b < 0 {
        (-a) / (-b)
    } else if a < 0 {
        -((-a) / b)
    } else {
        -(a / (-b))
    }
}

/// Whether `a / b` is computed by the machine without a fault: the divisor is
/// not zero and the quotient fits.
pub open spec fn div_defined(a: i32, b: i32) -> bool {
    b != 0 && !(a == i32::MIN && b == -1)
}

/// A quotient of operands that are not negative lies between zero and the
/// dividend, and below the dividend when the divisor exceeds one.
proof fn lemma_quotient_bounds(p: int, q: int)
    requires
        p >= 0,
        q > 0,
    ensures
        0 <= p / q <= p,
        q > 1 && p > 0 ==> p / q < p,
{
    assert(0 <= p / q <= p) by (nonlinear_arith)
        requires
            p >= 0,
            q > 0,
    ;
    assert(q > 1 && p > 0 ==> p / q < p) by (nonlinear_arith)
        requires
            p >= 0,
            q > 0,
    ;
}

/// Divides as the machine does.
fn div_i32(a: i32, b: i32) -> (q: i32)
    requires
        div_defined(a, b),
    ensures
        q == truncating_div(a as int, b as int),
{
    proof {
        let p: int = if a >= 0 { a as int } else { -(a as int) };
        let d: int = if b > 0 { b as int } else { -(b as int) };
        lemma_quotient_bounds(p, d);
        assert(a as int * -1 == -(a as int));
        assert(b as int * -1 == -(b as int));
    }
    match a.checked_div(b) {
        Some(q) => q,
        None => 0,
    }
}

impl Coords {
    pub fn from_xy(x: i32, y: i32) -> (c: Coords)
        ensures
            c == (Coords { x, y }),
    {
        Coords { x, y }
    }

    pub fn from_x(x: i32) -> (c: Coords)
        ensures
            c == (Coords { x, y: 0 }),
    {
        Coords { x, y: 0 }
    }

    pub fn from_y(y: i32) -> (c: Coords)
        ensures
            c == (Coords { x: 0, y }),
    {
        Coords { x: 0, y }
    }

    /// The horizontal part of `self`.
    pub fn to_x(self) -> (c: Coords)
        ensures
            c == (Coords { x: self.x, y: 0 }),
    {
        Coords { x: self.x, y: 0 }
    }

    /// The vertical part of `self`.
    pub fn to_y(self) -> (c: Coords)
        ensures
            c == (Coords { x: 0, y: self.y }),
    {
        Coords { x: 0, y: self.y }
    }

    /// What `as_row_col` returns: the one-based row and column of the cell,
    /// each coordinate first cut to its low sixteen bits.
    pub open spec fn row_col(self) -> (int, int) {
        ((self.y as u16) + 1, (self.x as u16) + 1)
    }

    /// Whether the one-based row and column both fit in sixteen bits.
    pub open spec fn has_row_col(self) -> bool {
        (self.x as u16) < u16::MAX && (self.y as u16) < u16::MAX
    }

    /// Whether the terminal can address the cell: see `has_row_col`.
    pub fn is_addressable(self) -> (b: bool)
        ensures
            b == self.has_row_col(),
    {
        low_bits(self.x) < u16::MAX && low_bits(self.y) < u16::MAX
    }

    /// The one-based `(row, column)` pair that a terminal expects.
    pub fn as_row_col(self) -> (rc: (u16, u16))
        requires
            self.has_row_col(),
        ensures
            rc.0 == self.row_col().0,
            rc.1 == self.row_col().1,
    {
        (low_bits(self.y) + 1, low_bits(self.x) + 1)
    }

    /// The one-based `(column, row)` pair of the cell.
    pub fn as_col_row(self) -> (cr: (u16, u16))
        requires
            self.has_row_col(),
        ensures
            cr.0 == self.row_col().1,
            cr.1 == self.row_col().0,
    {
        (low_bits(self.x) + 1, low_bits(self.y) + 1)
    }

    /// The sum of two coordinates as a pair of mathematical integers.
    pub open spec fn plus(self, other: Coords) -> (int, int) {
        (self.x + other.x, self.y + other.y)
    }

    /// The difference of two coordinates as a pair of mathematical integers.
    pub open spec fn minus(self, other: Coords) -> (int, int) {
        (self.x - other.x, self.y - other.y)
    }

    /// The coordinates scaled, as a pair of mathematical integers.
    pub open spec fn times(self, scalar: i32) -> (int, int) {
        (scalar * self.x, scalar * self.y)
    }

    /// Whether `self` can be moved by `n` times `step` without leaving the
    /// range of `i32`, the product being formed first.
    pub open spec fn can_step(self, n: i32, step: Coords) -> bool {
        Coords::pair_fits(step.times(n)) && Coords::pair_fits(self.plus(Coords::of_pair(step.times(n))))
    }

    /// `self` moved by `n` times `step`.
    pub open spec fn stepped(self, n: i32, step: Coords) -> Coords {
        Coords::of_pair(self.plus(Coords::of_pair(step.times(n))))
    }

    /// Whether both members of a pair are values of `i32`.
    pub open spec fn pair_fits(p: (int, int)) -> bool {
        fits_i32(p.0) && fits_i32(p.1)
    }

    /// The coordinates that hold the two integers of a pair, each cut to an
    /// `i32`.
    pub open spec fn of_pair(p: (int, int)) -> Coords {
        Coords { x: p.0 as i32, y: p.1 as i32 }
    }
}

/// The low sixteen bits of a coordinate.
fn low_bits(v: i32) -> (r: u16)
    ensures
        r == v as u16,
{
    #[verifier::truncate]
    (v as u16)
}

impl Default for Coords {
    /// The origin.
    fn default() -> (c: Coords)
        ensures
            c == (Coords { x: 0, y: 0 }),
    {
        Coords { x: 0, y: 0 }
    }
}

impl From<(u16, u16)> for Coords {
    /// From a one-based `(x, y)` pair to zero-based coordinates.
    fn from(pair: (u16, u16)) -> (c: Coords) {
        let x: i32 = pair.0 as i32;
        let y: i32 = pair.1 as i32;
        Coords::from_xy(x - 1, y - 1)
    }
}

impl FromSpecImpl<(u16, u16)> for Coords {
    open spec fn obeys_from_spec() -> bool {
        true
    }

    open spec fn from_spec(pair: (u16, u16)) -> Coords {
        Coords { x: (pair.0 - 1) as i32, y: (pair.1 - 1) as i32 }
    }
}

impl std::ops::Neg for Coords {
    type Output = Coords;

    fn neg(self) -> (c: Coords) {
        Coords { x: -self.x, y: -self.y }
    }
}

impl NegSpecImpl for Coords {
    open spec fn obeys_neg_spec() -> bool {
        true
    }

    open spec fn neg_req(self) -> bool {
        self.x != i32::MIN && self.y != i32::MIN
    }

    open spec fn neg_spec(self) -> Coords {
        Coords { x: (-self.x) as i32, y: (-self.y) as i32 }
    }
}

impl std::ops::Add<Coords> for Coords {
    type Output = Coords;

    fn add(self, other: Coords) -> (c: Coords) {
        Coords { x: self.x + other.x, y: self.y + other.y }
    }
}

impl AddSpecImpl<Coords> for Coords {
    open spec fn obeys_add_spec() -> bool {
        true
    }

    open spec fn add_req(self, other: Coords) -> bool {
        Coords::pair_fits(self.plus(other))
    }

    open spec fn add_spec(self, other: Coords) -> Coords {
        Coords::of_pair(self.plus(other))
    }
}

impl std::ops::Sub<Coords> for Coords {
    type Output = Coords;

    fn sub(self, other: Coords) -> (c: Coords) {
        Coords { x: self.x - other.x, y: self.y - other.y }
    }
}

impl SubSpecImpl<Coords> for Coords {
    open spec fn obeys_sub_spec() -> bool {
        true
    }

    open spec fn sub_req(self, other: Coords) -> bool {
        Coords::pair_fits(self.minus(other))
    }

    open spec fn sub_spec(self, other: Coords) -> Coords {
        Coords::of_pair(self.minus(other))
    }
}

impl std::ops::Mul<i32> for Coords {
    type Output = Coords;

    fn mul(self, scalar: i32) -> (c: Coords) {
        Coords { x: scalar * self.x, y: scalar * self.y }
    }
}

impl MulSpecImpl<i32> for Coords {
    open spec fn obeys_mul_spec() -> bool {
        true
    }

    open spec fn mul_req(self, scalar: i32) -> bool {
        Coords::pair_fits(self.times(scalar))
    }

    open spec fn mul_spec(self, scalar: i32) -> Coords {
        Coords::of_pair(self.times(scalar))
    }
}

impl std::ops::Mul<Coords> for i32 {
    type Output = Coords;

    fn mul(self, coords: Coords) -> (c: Coords) {
        Coords { x: self * coords.x, y: self * coords.y }
    }
}

impl MulSpecImpl<Coords> for i32 {
    open spec fn obeys_mul_spec() -> bool {
        true
    }

    open spec fn mul_req(self, coords: Coords) -> bool {
        Coords::pair_fits(coords.times(self))
    }

    open spec fn mul_spec(self, coords: Coords) -> Coords {
        Coords::of_pair(coords.times(self))
    }
}

impl std::ops::Div<i32> for Coords {
    type Output = Coords;

    /// Divides the scalar by each coordinate.
    fn div(self, scalar: i32) -> (c: Coords) {
        Coords { x: div_i32(scalar, self.x), y: div_i32(scalar, self.y) }
    }
}

impl DivSpecImpl<i32> for Coords {
    open spec fn obeys_div_spec() -> bool {
        true
    }

    open spec fn div_req(self, scalar: i32) -> bool {
        div_defined(scalar, self.x) && div_defined(scalar, self.y)
    }

    open spec fn div_spec(self, scalar: i32) -> Coords {
        Coords {
            x: truncating_div(scalar as int, self.x as int) as i32,
            y: truncating_div(scalar as int, self.y as int) as i32,
        }
    }
}

impl std::ops::AddAssign<Coords> for Coords {
    fn add_assign(&mut self, other: Coords)
        requires
            Coords::pair_fits(old(self).plus(other)),
        ensures
            *final(self) == Coords::of_pair(old(self).plus(other)),
    {
        self.x += other.x;
        self.y += other.y;
    }
}

impl std::ops::SubAssign<Coords> for Coords {
    fn sub_assign(&mut self, other: Coords)
        requires
            Coords::pair_fits(old(self).minus(other)),
        ensures
            *final(self) == Coords::of_pair(old(self).minus(other)),
    {
        self.x -= other.x;
        self.y -= other.y;
    }
}

impl std::ops::MulAssign<i32> for Coords {
    fn mul_assign(&mut self, scalar: i32)
        requires
            Coords::pair_fits(old(self).times(scalar)),
        ensures
            *final(self) == Coords::of_pair(old(self).times(scalar)),
    {
        self.x = scalar * self.x;
        self.y = scalar * self.y;
    }
}

impl std::ops::DivAssign<i32> for Coords {
    /// Divides each coordinate by the scalar.
    fn div_assign(&mut self, scalar: i32)
        requires
            div_defined(old(self).x, scalar),
            div_defined(old(self).y, scalar),
        ensures
            final(self).x == truncating_div(old(self).x as int, scalar as int),
            final(self).y == truncating_div(old(self).y as int, scalar as int),
    {
        self.x = div_i32(self.x, scalar);
        self.y = div_i32(self.y, scalar);
    }
}

impl PartialOrd for Coords {
    /// `self` is less than `other` where it lies above and to the left of
    /// it, greater where it lies below and to the right; two different
    /// points that are neither are not comparable.
    fn partial_cmp(&self, other: &Self) -> (r: Option<Ordering>) {
        if self.x == other.x && self.y == other.y {
            Some(Ordering::Equal)
        } else if self.x < other.x && self.y < other.y {
            Some(Ordering::Less)
        } else if self.x > other.x && self.y > other.y {
            Some(Ordering::Greater)
        } else {
            None
        }
    }
}

impl PartialOrdSpecImpl for Coords {
    open spec fn obeys_partial_cmp_spec() -> bool {
        true
    }

    open spec fn partial_cmp_spec(&self, other: &Coords) -> Option<Ordering> {
        if self.x == other.x && self.y == other.y {
            Some(Ordering::Equal)
        } else if self.x < other.x && self.y < other.y {
            Some(Ordering::Less)
        } else if self.x > other.x && self.y > other.y {
            Some(Ordering::Greater)
        } else {
            None
        }
    }
}

} // verus!
