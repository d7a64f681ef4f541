//! Points and rectangles on the grid, and distances between points.

use vstd::prelude::*;

verus! {

/// A tile coordinate on the map grid.
#[derive(Clone, Copy, Debug, PartialEq, Eq, Structural)]
pub struct Coord {
    pub x: i32,
    pub y: i32,
}

impl Coord {
    pub fn new(x: i32, y: i32) -> (p: Coord)
        ensures
            p == (Coord { x, y }),
    {
        Coord { x, y }
    }
}

/// Squared Euclidean distance between two tiles.
pub open spec fn distance_squared(a: Coord, b: Coord) -> int {
    (a.x - b.x) * (a.x - b.x) + (a.y - b.y) * (a.y - b.y)
}

/// Whether two tiles are closer than one and a half tiles apart, which on a
/// grid means the same tile or one of its eight neighbours.
pub open spec fn spec_within_melee_range(a: Coord, b: Coord) -> bool {
    4 * distance_squared(a, b) < 9
}

/// Whether `b` lies within `range` tiles of `a`, measured in a straight line.
pub open spec fn spec_within_range(a: Coord, b: Coord, range: int) -> bool {
    range >= 0 && distance_squared(a, b) <= range * range
}

/// Decides `spec_within_melee_range` without leaving 64-bit arithmetic.
#[verifier::when_used_as_spec(spec_within_melee_range)]
pub fn within_melee_range(a: Coord, b: Coord) -> (r: bool)
    ensures
        r == spec_within_melee_range(a, b),
        r <==> (-1 <= a.x - b.x <= 1 && -1 <= a.y - b.y <= 1),
{
    let dx: i64 = a.x as i64 - b.x as i64;
    let dy: i64 = a.y as i64 - b.y as i64;
    let near = -1 <= dx && dx <= 1 && -1 <= dy && dy <= 1;
    proof {
        assert(near ==> 4 * (dx * dx + dy * dy) < 9) by (nonlinear_arith)
            requires
                near == (-1 <= dx && dx <= 1 && -1 <= dy && dy <= 1),
        ;
        assert(!near ==> 4 * (dx * dx + dy * dy) >= 9) by (nonlinear_arith)
            requires
                near == (-1 <= dx && dx <= 1 && -1 <= dy && dy <= 1),
        ;
    }
    near
}

/// Decides `spec_within_range`.
pub fn within_range(a: Coord, b: Coord, range: i32) -> (r: bool)
    ensures
        r == spec_within_range(a, b, range as int),
{
    if range < 0 {
        return false;
    }
    let dx: i128 = a.x as i128 - b.x as i128;
    let dy: i128 = a.y as i128 - b.y as i128;
    let limit: i128 = range as i128;
    assert(0 <= dx * dx <= 0x1_0000_0000_0000_0000) by (nonlinear_arith)
        requires
            -0x1_0000_0000 <= dx <= 0x1_0000_0000,
    ;
    assert(0 <= dy * dy <= 0x1_0000_0000_0000_0000) by (nonlinear_arith)
        requires
            -0x1_0000_0000 <= dy <= 0x1_0000_0000,
    ;
    assert(0 <= limit * limit <= 0x1_0000_0000_0000_0000) by (nonlinear_arith)
        requires
            0 <= limit <= 0x1_0000_0000,
    ;
    dx * dx + dy * dy <= limit * limit
}

/// An axis-aligned rectangle of tiles, given by two opposite corners.
#[derive(Clone, Copy, Debug, PartialEq, Eq, Structural)]
pub struct Rect {
    pub x1: i32,
    pub x2: i32,
    pub y1: i32,
    pub y2: i32,
}

impl Rect {
    /// The rectangle with corner `(x, y)`, `w` tiles wide and `h` tiles high.
    pub fn new(x: i32, y: i32, w: i32, h: i32) -> (r: Rect)
        requires
            i32::MIN <= x + w <= i32::MAX,
            i32::MIN <= y + h <= i32::MAX,
        ensures
            r == (Rect { x1: x, y1: y, x2: (x + w) as i32, y2: (y + h) as i32 }),
    {
        Rect { x1: x, y1: y, x2: x + w, y2: y + h }
    }

    /// Two rectangles overlap when their spans meet on both axes; touching
    /// edges count.
    pub open spec fn spec_intersects(&self, other: &Rect) -> bool {
        self.x1 <= other.x2 && self.x2 >= other.x1 && self.y1 <= other.y2 && self.y2 >= other.y1
    }

    #[verifier::when_used_as_spec(spec_intersects)]
    pub fn intersects(&self, other: &Rect) -> (r: bool)
        ensures
            r == self.spec_intersects(other),
    {
        self.x1 <= other.x2 && self.x2 >= other.x1 && self.y1 <= other.y2 && self.y2 >= other.y1
    }

    /// The middle tile, each coordinate rounded toward zero.
    pub open spec fn spec_center(&self) -> (int, int) {
        (trunc_half(self.x1 + self.x2), trunc_half(self.y1 + self.y2))
    }

    pub fn center(&self) -> (c: (i32, i32))
        ensures
            (c.0 as int, c.1 as int) == self.spec_center(),
    {
        let sx: i64 = self.x1 as i64 + self.x2 as i64;
        let sy: i64 = self.y1 as i64 + self.y2 as i64;
        ((sx / 2) as i32, (sy / 2) as i32)
    }
}

/// Half of `n`, rounded toward zero.
pub open spec fn trunc_half(n: int) -> int {
    if n >= 0 {
        n / 2
    } else {
        -((-n) / 2)
    }
}

} // verus!
