//! Points of the layout plane.

use vstd::prelude::*;

verus! {

/// A point with unbounded coordinates: the mathematical value of a [`Pos2`].
pub struct Point {
    pub x: int,
    pub y: int,
}

impl Point {
    /// The point is within the range of coordinates that a [`Pos2`] can hold.
    pub open spec fn representable(self) -> bool {
        &&& i64::MIN <= self.x <= i64::MAX
        &&& i64::MIN <= self.y <= i64::MAX
    }

    /// Componentwise difference.
    pub open spec fn minus(self, other: Point) -> Point {
        Point { x: self.x - other.x, y: self.y - other.y }
    }
}

/// A position in whole layout units. `y` grows downwards.
#[derive(Debug, Clone, Copy, PartialEq, Eq, Structural)]
pub struct Pos2 {
    pub x: i64,
    pub y: i64,
}

impl View for Pos2 {
    type V = Point;

    open spec fn view(&self) -> Point {
        Point { x: self.x as int, y: self.y as int }
    }
}

impl Pos2 {
    pub fn new(x: i64, y: i64) -> (p: Pos2)
        ensures
            p.x == x,
            p.y == y,
    {
        Pos2 { x, y }
    }

    /// The origin.
    pub fn zero() -> (p: Pos2)
        ensures
            p.x == 0,
            p.y == 0,
    {
        Pos2 { x: 0, y: 0 }
    }

    /// Moves this position by `-other`, in place.
    pub fn subtract(&mut self, other: &Pos2) -> (moved: &mut Pos2)
        requires
            old(self)@.minus(other@).representable(),
        ensures
            moved@ == old(self)@.minus(other@),
            *final(self) == *final(moved),
    {
        self.x = self.x - other.x;
        self.y = self.y - other.y;
        self
    }
}

impl Default for Pos2 {
    fn default() -> (p: Pos2)
        ensures
            p.x == 0,
            p.y == 0,
    {
        Pos2 { x: 0, y: 0 }
    }
}

/// The value of an optional position.
pub open spec fn point_of(position: Option<Pos2>) -> Option<Point> {
    match position {
        Some(p) => Some(p@),
        None => None,
    }
}

} // verus!
