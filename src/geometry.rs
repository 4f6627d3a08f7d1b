use vstd::prelude::*;

verus! {

/// Largest absolute coordinate of a point of the world, in distance units.
pub const WORLD_EXTENT: i64 = 1125899906842624;

/// A point of the world, in integer distance units.
#[derive(Clone, Copy, Debug, PartialEq, Eq, Structural)]
pub struct Point {
    pub x: i64,
    pub y: i64,
}

/// Whether an integer coordinate lies within the world.
pub open spec fn in_extent(v: int) -> bool {
    -WORLD_EXTENT <= v <= WORLD_EXTENT
}

impl Point {
    pub open spec fn in_world(self) -> bool {
        in_extent(self.x as int) && in_extent(self.y as int)
    }

    pub fn new(x: i64, y: i64) -> (r: Point)
        ensures
            r.x == x,
            r.y == y,
    {
        Point { x, y }
    }
}

/// The coordinate `v` clamped into the world.
pub open spec fn clamp_to_extent(v: int) -> int {
    if v < -WORLD_EXTENT {
        -WORLD_EXTENT as int
    } else if v > WORLD_EXTENT {
        WORLD_EXTENT as int
    } else {
        v
    }
}

/// `a + b`, clamped into the world.
pub fn add_clamped(a: i64, b: i64) -> (r: i64)
    requires
        in_extent(a as int),
        in_extent(b as int),
    ensures
        r as int == clamp_to_extent(a + b),
{
    let s = a + b;
    if s < -WORLD_EXTENT {
        -WORLD_EXTENT
    } else if s > WORLD_EXTENT {
        WORLD_EXTENT
    } else {
        s
    }
}

/// Squared Euclidean distance between two points.
pub open spec fn dist_sq(a: Point, b: Point) -> int {
    (b.x - a.x) * (b.x - a.x) + (b.y - a.y) * (b.y - a.y)
}

/// `r` is the integer square root of `n`: the largest `r` with `r * r <= n`.
pub open spec fn is_isqrt(n: int, r: int) -> bool {
    0 <= r && r * r <= n && n < (r + 1) * (r + 1)
}

/// Upper bound (exclusive) of the values whose square root `isqrt` takes.
pub const ISQRT_LIMIT: u128 = 0x10000000000000000000000000000;

/// Integer square root, by bisection.
pub fn isqrt(n: u128) -> (r: u64)
    requires
        n < ISQRT_LIMIT,
    ensures
        is_isqrt(n as int, r as int),
{
    let mut lo: u128 = 0;
    let mut hi: u128 = 0x100000000000000;
    assert(n < hi * hi) by (nonlinear_arith)
        requires
            n < ISQRT_LIMIT,
            hi == 0x100000000000000u128,
    ;
    while hi - lo > 1
        invariant
            lo < hi <= 0x100000000000000u128,
            lo * lo <= n,
            n < hi * hi,
        decreases hi - lo,
    {
        let mid = lo + (hi - lo) / 2;
        assert(mid * mid <= 0x100000000000000u128 * 0x100000000000000u128) by (nonlinear_arith)
            requires
                mid <= 0x100000000000000u128,
        ;
        if mid * mid <= n {
            lo = mid;
        } else {
            hi = mid;
        }
    }
    assert(hi == lo + 1);
    lo as u64
}

} // verus!
