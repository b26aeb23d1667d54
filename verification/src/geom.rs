use vstd::prelude::*;

verus! {

/// Coordinates the geometry works over stay inside this bound, so that
/// squared distances and room arithmetic never overflow an `i32`.
pub const COORD_LIMIT: i32 = 10_000;

pub open spec fn coord_ok(x: int) -> bool {
    -COORD_LIMIT <= x <= COORD_LIMIT
}

/// Squared Euclidean distance between two points.  All range and
/// radius comparisons in the game compare squared distances, which
/// decides exactly as comparing the real distances would.
pub open spec fn spec_dist_sq(x1: int, y1: int, x2: int, y2: int) -> int {
    (x2 - x1) * (x2 - x1) + (y2 - y1) * (y2 - y1)
}

pub fn dist_sq(x1: i32, y1: i32, x2: i32, y2: i32) -> (d: i64)
    requires
        coord_ok(x1 as int),
        coord_ok(y1 as int),
        coord_ok(x2 as int),
        coord_ok(y2 as int),
    ensures
        d == spec_dist_sq(x1 as int, y1 as int, x2 as int, y2 as int),
        0 <= d <= 800_000_000,
{
    let dx: i64 = (x2 as i64) - (x1 as i64);
    let dy: i64 = (y2 as i64) - (y1 as i64);
    proof {
        assert(dx * dx <= 400_000_000 && dx * dx >= 0 && dy * dy <= 400_000_000 && dy * dy >= 0)
            by (nonlinear_arith)
            requires
                -20_000 <= dx <= 20_000,
                -20_000 <= dy <= 20_000,
        ;
    }
    dx * dx + dy * dy
}

/// An axis-aligned room rectangle; the overlap test treats the bounds
/// as inclusive on every side.
#[derive(Clone, Copy, Debug)]
pub struct Rect {
    pub x1: i32,
    pub y1: i32,
    pub x2: i32,
    pub y2: i32,
}

impl Rect {
    pub open spec fn wf(self) -> bool {
        &&& 0 <= self.x1 <= self.x2 <= COORD_LIMIT
        &&& 0 <= self.y1 <= self.y2 <= COORD_LIMIT
    }

    pub open spec fn center_x(self) -> int {
        (self.x1 + self.x2) / 2
    }

    pub open spec fn center_y(self) -> int {
        (self.y1 + self.y2) / 2
    }

    pub open spec fn spec_intersects(self, other: Rect) -> bool {
        &&& self.x1 <= other.x2
        &&& self.x2 >= other.x1
        &&& self.y1 <= other.y2
        &&& self.y2 >= other.y1
    }

    pub fn new(x: i32, y: i32, w: i32, h: i32) -> (r: Rect)
        requires
            0 <= x,
            0 <= y,
            0 <= w,
            0 <= h,
            x + w <= COORD_LIMIT,
            y + h <= COORD_LIMIT,
        ensures
            r.x1 == x,
            r.y1 == y,
            r.x2 == x + w,
            r.y2 == y + h,
            r.wf(),
    {
        Rect { x1: x, y1: y, x2: x + w, y2: y + h }
    }

    pub fn center(&self) -> (c: (i32, i32))
        requires
            self.wf(),
        ensures
            c.0 == self.center_x(),
            c.1 == self.center_y(),
            0 <= c.0 <= COORD_LIMIT,
            0 <= c.1 <= COORD_LIMIT,
    {
        let cx: i32 = (self.x2 + self.x1) / 2;
        let cy: i32 = (self.y2 + self.y1) / 2;
        (cx, cy)
    }

    pub fn intersects_with(&self, other: &Rect) -> (b: bool)
        ensures
            b == self.spec_intersects(*other),
    {
        (self.x1 <= other.x2) && (self.x2 >= other.x1) && (self.y1 <= other.y2) && (self.y2
            >= other.y1)
    }
}

} // verus!
