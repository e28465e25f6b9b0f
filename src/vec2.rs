use vstd::prelude::*;

verus! {

/// Largest magnitude of a coordinate that the router accepts, in grid units.
pub const COORD_LIMIT: i64 = 0x1000_0000;

/// A point on the fixed routing grid. One unit is the grid step (DELTA), so
/// fixed-point arithmetic is exact integer arithmetic here.
#[derive(Debug, Clone, Copy, PartialEq, Eq, Structural, Hash, PartialOrd, Ord)]
pub struct FixedVec2 {
    pub x: i64,
    pub y: i64,
}

/// A coordinate is small enough that sums and differences of a few of them fit.
pub open spec fn coord_ok(v: int) -> bool {
    -COORD_LIMIT <= v <= COORD_LIMIT
}

pub open spec fn point_ok(p: FixedVec2) -> bool {
    coord_ok(p.x as int) && coord_ok(p.y as int)
}

pub open spec fn abs(v: int) -> int {
    if v < 0 { -v } else { v }
}

/// Chebyshev length of a grid delta: the number of grid steps of a
/// horizontal, vertical or diagonal segment.
pub open spec fn cheb(dx: int, dy: int) -> int {
    if abs(dx) >= abs(dy) { abs(dx) } else { abs(dy) }
}

impl FixedVec2 {
    pub fn new(x: i64, y: i64) -> (r: FixedVec2)
        ensures
            r.x == x && r.y == y,
    {
        FixedVec2 { x, y }
    }
}

} // verus!
