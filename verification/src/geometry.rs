//! Grid points and room rectangles.

use vstd::prelude::*;

verus! {

/// A grid coordinate.
#[derive(Clone, Copy, Debug, PartialEq, Eq, Structural)]
pub struct GridPoint {
    pub x: i32,
    pub y: i32,
}

impl GridPoint {
    pub fn new(x: i32, y: i32) -> (p: GridPoint)
        ensures
            p.x == x,
            p.y == y,
    {
        GridPoint { x, y }
    }
}

/// The absolute difference of two coordinates.
pub open spec fn abs_diff(a: int, b: int) -> int {
    if a >= b {
        a - b
    } else {
        b - a
    }
}

/// The squared Euclidean distance between two cells.
pub open spec fn distance_squared_spec(ax: int, ay: int, bx: int, by: int) -> int {
    (ax - bx) * (ax - bx) + (ay - by) * (ay - by)
}

/// The Chebyshev distance between two cells: the larger of the two axis
/// distances, which is the number of king moves between them on an open grid.
pub open spec fn chebyshev_spec(ax: int, ay: int, bx: int, by: int) -> int {
    if abs_diff(ax, bx) >= abs_diff(ay, by) {
        abs_diff(ax, bx)
    } else {
        abs_diff(ay, by)
    }
}

/// Whether two cells are within melee reach of each other: their Euclidean
/// distance is below one and a half tiles, which on a grid means that they
/// coincide or touch, diagonals included.
pub open spec fn within_melee_reach(ax: int, ay: int, bx: int, by: int) -> bool {
    4 * distance_squared_spec(ax, ay, bx, by) < 9
}

pub proof fn lemma_melee_reach_is_adjacency(ax: int, ay: int, bx: int, by: int)
    ensures
        within_melee_reach(ax, ay, bx, by) <==> chebyshev_spec(ax, ay, bx, by) <= 1,
{
    let dx = ax - bx;
    let dy = ay - by;
    assert(dx * dx >= 0 && dy * dy >= 0) by (nonlinear_arith);
    assert(dx >= 2 || dx <= -2 ==> dx * dx >= 4) by (nonlinear_arith);
    assert(dy >= 2 || dy <= -2 ==> dy * dy >= 4) by (nonlinear_arith);
    assert(-1 <= dx <= 1 ==> dx * dx <= 1) by (nonlinear_arith);
    assert(-1 <= dy <= 1 ==> dy * dy <= 1) by (nonlinear_arith);
}

/// Squared Euclidean distance between two points.
pub fn distance_squared(a: GridPoint, b: GridPoint) -> (d: i128)
    ensures
        d == distance_squared_spec(a.x as int, a.y as int, b.x as int, b.y as int),
{
    let dx: i128 = a.x as i128 - b.x as i128;
    let dy: i128 = a.y as i128 - b.y as i128;
    assert(0 <= dx * dx <= 0x1_0000_0000 * 0x1_0000_0000) by (nonlinear_arith)
        requires
            -0x1_0000_0000 < dx < 0x1_0000_0000,
    ;
    assert(0 <= dy * dy <= 0x1_0000_0000 * 0x1_0000_0000) by (nonlinear_arith)
        requires
            -0x1_0000_0000 < dy < 0x1_0000_0000,
    ;
    dx * dx + dy * dy
}

/// Whether `a` can strike `b` in melee.
pub fn in_melee_reach(a: GridPoint, b: GridPoint) -> (r: bool)
    ensures
        r == within_melee_reach(a.x as int, a.y as int, b.x as int, b.y as int),
{
    let d: i128 = distance_squared(a, b);
    d <= 2
}

/// Chebyshev distance between two points.
pub fn chebyshev(a: GridPoint, b: GridPoint) -> (d: i64)
    ensures
        d == chebyshev_spec(a.x as int, a.y as int, b.x as int, b.y as int),
{
    let dx: i64 = if a.x >= b.x {
        a.x as i64 - b.x as i64
    } else {
        b.x as i64 - a.x as i64
    };
    let dy: i64 = if a.y >= b.y {
        a.y as i64 - b.y as i64
    } else {
        b.y as i64 - a.y as i64
    };
    if dx >= dy {
        dx
    } else {
        dy
    }
}

/// Half of `sum`, rounded toward zero.
pub open spec fn half(sum: int) -> int {
    if sum >= 0 {
        sum / 2
    } else {
        -((-sum) / 2)
    }
}

/// The mean of two coordinates, rounded toward zero.
fn mean(a: i32, b: i32) -> (m: i32)
    ensures
        m == half(a + b),
{
    let sum: i64 = a as i64 + b as i64;
    if sum >= 0 {
        (sum / 2) as i32
    } else {
        (-((-sum) / 2)) as i32
    }
}

/// An axis-aligned rectangle with corners `(x1, y1)` and `(x2, y2)`.
#[derive(Clone, Copy, Debug, PartialEq, Eq, Structural)]
pub struct Rect {
    pub x1: i32,
    pub x2: i32,
    pub y1: i32,
    pub y2: i32,
}

impl Rect {
    /// Two rectangles intersect when they share a cell, border lines included.
    pub open spec fn intersects(self, other: Rect) -> bool {
        self.x1 <= other.x2 && self.x2 >= other.x1 && self.y1 <= other.y2 && self.y2 >= other.y1
    }

    /// The cells that become floor when the rectangle is carved as a room:
    /// everything strictly inside its border line.
    pub open spec fn interior_contains(self, x: int, y: int) -> bool {
        self.x1 < x < self.x2 && self.y1 < y < self.y2
    }

    /// The column of the center: the mean of the two sides, rounded toward
    /// zero.
    pub open spec fn center_x(self) -> int {
        half(self.x1 + self.x2)
    }

    /// The row of the center.
    pub open spec fn center_y(self) -> int {
        half(self.y1 + self.y2)
    }

    pub fn with_size(x: i32, y: i32, w: i32, h: i32) -> (r: Rect)
        requires
            i32::MIN <= x + w <= i32::MAX,
            i32::MIN <= y + h <= i32::MAX,
        ensures
            r.x1 == x,
            r.y1 == y,
            r.x2 == x + w,
            r.y2 == y + h,
    {
        Rect { x1: x, y1: y, x2: x + w, y2: y + h }
    }

    pub fn intersect(&self, other: &Rect) -> (r: bool)
        ensures
            r == self.intersects(*other),
    {
        self.x1 <= other.x2 && self.x2 >= other.x1 && self.y1 <= other.y2 && self.y2 >= other.y1
    }

    pub fn center(&self) -> (p: GridPoint)
        ensures
            p.x == self.center_x(),
            p.y == self.center_y(),
    {
        GridPoint::new(mean(self.x1, self.x2), mean(self.y1, self.y2))
    }
}

} // verus!
