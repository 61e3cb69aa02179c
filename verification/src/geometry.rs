//! Points, vectors and axis-aligned rectangles in fixed-point world units.

use vstd::prelude::*;

verus! {

/// The fixed-point representation of one world unit.
pub const ONE: i64 = 1_000_000;

/// The largest magnitude a coordinate may have for the simulation to move it
/// and to measure distances from it without leaving the machine integers.
pub const COORD_MAX: i64 = 0x3FFF_FFFF_FFFF_FFFF;

/// Whether one coordinate lies within `COORD_MAX` of the origin.
pub open spec fn coord_in_range(c: int) -> bool {
    -COORD_MAX <= c <= COORD_MAX
}

/// The smaller of two integers.
pub open spec fn min_int(a: int, b: int) -> int {
    if a <= b {
        a
    } else {
        b
    }
}

/// The larger of two integers.
pub open spec fn max_int(a: int, b: int) -> int {
    if a >= b {
        a
    } else {
        b
    }
}

/// A point or a displacement in the plane.
#[derive(Clone, Copy, Debug, PartialEq, Eq, Structural)]
pub struct Vec2 {
    pub x: i64,
    pub y: i64,
}

/// The square of the Euclidean distance between two points.
pub open spec fn distance_squared(a: Vec2, b: Vec2) -> int {
    (a.x - b.x) * (a.x - b.x) + (a.y - b.y) * (a.y - b.y)
}

/// Whether `b` lies strictly closer to `a` than `radius`. A point at exactly
/// `radius` is not within it, and nothing is within a radius below zero.
pub open spec fn within(a: Vec2, b: Vec2, radius: int) -> bool {
    0 <= radius && distance_squared(a, b) < radius * radius
}

/// A squared distance is never negative, so nothing is within a radius of
/// zero.
pub proof fn lemma_distance_squared_nonnegative(a: Vec2, b: Vec2)
    ensures
        distance_squared(a, b) >= 0,
        !within(a, b, 0),
{
    let dx: int = a.x - b.x;
    let dy: int = a.y - b.y;
    assert(dx * dx >= 0) by (nonlinear_arith);
    assert(dy * dy >= 0) by (nonlinear_arith);
}

impl Vec2 {
    /// The point with the given coordinates.
    pub fn new(x: i64, y: i64) -> (v: Vec2)
        ensures
            v == (Vec2 { x, y }),
    {
        Vec2 { x, y }
    }

    /// Both coordinates lie within `COORD_MAX` of the origin.
    pub open spec fn in_range(self) -> bool {
        coord_in_range(self.x as int) && coord_in_range(self.y as int)
    }

    /// Whether both coordinates lie within `COORD_MAX` of the origin.
    pub fn is_in_range(&self) -> (b: bool)
        ensures
            b == self.in_range(),
    {
        -COORD_MAX <= self.x && self.x <= COORD_MAX && -COORD_MAX <= self.y && self.y
            <= COORD_MAX
    }
}

/// Every point of the sequence lies within `COORD_MAX` of the origin.
pub open spec fn points_in_range(points: Seq<Vec2>) -> bool {
    forall|i: int| 0 <= i < points.len() ==> (#[trigger] points[i]).in_range()
}

/// An axis-aligned rectangle given by its lower and upper corners. Its edges
/// belong to it.
#[derive(Clone, Copy, Debug, PartialEq, Eq, Structural)]
pub struct Rect {
    pub min: Vec2,
    pub max: Vec2,
}

impl Rect {
    /// The lower corner is not above the upper corner on either axis.
    pub open spec fn ordered(self) -> bool {
        self.min.x <= self.max.x && self.min.y <= self.max.y
    }

    /// Both corners lie within `COORD_MAX` of the origin.
    pub open spec fn in_range(self) -> bool {
        self.min.in_range() && self.max.in_range()
    }

    /// The point lies inside the rectangle or on its edge.
    pub open spec fn contains(self, p: Vec2) -> bool {
        self.min.x <= p.x <= self.max.x && self.min.y <= p.y <= self.max.y
    }

    /// The rectangle spanned by two opposite corners, given in any order.
    pub open spec fn spanning(a: Vec2, b: Vec2) -> Rect {
        Rect {
            min: Vec2 { x: min_int(a.x as int, b.x as int) as i64, y: min_int(a.y as int, b.y as int) as i64 },
            max: Vec2 { x: max_int(a.x as int, b.x as int) as i64, y: max_int(a.y as int, b.y as int) as i64 },
        }
    }

    /// Whether two rectangles have a point in common.
    pub open spec fn meets(self, other: Rect) -> bool {
        &&& max_int(self.min.x as int, other.min.x as int) <= min_int(
            self.max.x as int,
            other.max.x as int,
        )
        &&& max_int(self.min.y as int, other.min.y as int) <= min_int(
            self.max.y as int,
            other.max.y as int,
        )
    }

    /// The part that two rectangles share. On an axis where they share
    /// nothing the result has no extent and sits at the smaller of the two
    /// upper bounds.
    pub open spec fn overlap(self, other: Rect) -> Rect {
        let hi_x = min_int(self.max.x as int, other.max.x as int);
        let hi_y = min_int(self.max.y as int, other.max.y as int);
        let lo_x = max_int(self.min.x as int, other.min.x as int);
        let lo_y = max_int(self.min.y as int, other.min.y as int);
        Rect {
            min: Vec2 { x: min_int(lo_x, hi_x) as i64, y: min_int(lo_y, hi_y) as i64 },
            max: Vec2 { x: hi_x as i64, y: hi_y as i64 },
        }
    }

    /// The rectangle spanned by two opposite corners, given in any order.
    pub fn from_corners(a: Vec2, b: Vec2) -> (r: Rect)
        ensures
            r == Rect::spanning(a, b),
            r.ordered(),
            r.contains(a),
            r.contains(b),
    {
        let lo_x: i64 = if a.x <= b.x { a.x } else { b.x };
        let hi_x: i64 = if a.x >= b.x { a.x } else { b.x };
        let lo_y: i64 = if a.y <= b.y { a.y } else { b.y };
        let hi_y: i64 = if a.y >= b.y { a.y } else { b.y };
        Rect { min: Vec2 { x: lo_x, y: lo_y }, max: Vec2 { x: hi_x, y: hi_y } }
    }

    /// The part that this rectangle shares with another: where the two
    /// meet, the points of the result are the points of both. Where they do
    /// not, the result has no extent on an axis on which they are apart.
    pub fn intersect(&self, other: Rect) -> (r: Rect)
        ensures
            r == self.overlap(other),
            r.ordered(),
            self.in_range() && other.in_range() ==> r.in_range(),
            self.meets(other) ==> forall|p: Vec2|
                #[trigger] r.contains(p) <==> self.contains(p) && other.contains(p),
    {
        let hi_x: i64 = if self.max.x <= other.max.x { self.max.x } else { other.max.x };
        let hi_y: i64 = if self.max.y <= other.max.y { self.max.y } else { other.max.y };
        let lo_x: i64 = if self.min.x >= other.min.x { self.min.x } else { other.min.x };
        let lo_y: i64 = if self.min.y >= other.min.y { self.min.y } else { other.min.y };
        Rect {
            min: Vec2 { x: if lo_x <= hi_x { lo_x } else { hi_x }, y: if lo_y <= hi_y { lo_y } else { hi_y } },
            max: Vec2 { x: hi_x, y: hi_y },
        }
    }

    /// Whether both corners lie within `COORD_MAX` of the origin.
    pub fn is_in_range(&self) -> (b: bool)
        ensures
            b == self.in_range(),
    {
        self.min.is_in_range() && self.max.is_in_range()
    }

    /// Whether the point lies inside the rectangle or on its edge.
    pub fn has(&self, p: Vec2) -> (b: bool)
        ensures
            b == self.contains(p),
    {
        self.min.x <= p.x && p.x <= self.max.x && self.min.y <= p.y && p.y <= self.max.y
    }
}

} // verus!
