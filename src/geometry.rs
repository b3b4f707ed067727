use vstd::prelude::*;

verus! {

/// Every coordinate of the simulation lies in `[-WORLD_LIMIT, WORLD_LIMIT]`.
/// The bound keeps squared distances within `u64`.
pub const WORLD_LIMIT: i64 = 1073741824;

/// A point of the plane, in integer units.
#[derive(Clone, Copy, Debug, PartialEq, Eq, Structural)]
pub struct Point {
    pub x: i64,
    pub y: i64,
}

impl Point {
    pub open spec fn in_world(self) -> bool {
        in_world_range(self.x as int) && in_world_range(self.y as int)
    }

    pub fn new(x: i64, y: i64) -> (r: Point)
        ensures
            r.x == x,
            r.y == y,
    {
        Point { x, y }
    }
}

pub open spec fn in_world_range(v: int) -> bool {
    -WORLD_LIMIT <= v <= WORLD_LIMIT
}

/// The nearest value of the world range.
pub open spec fn clamp_world(v: int) -> int {
    if v < -WORLD_LIMIT {
        -WORLD_LIMIT as int
    } else if v > WORLD_LIMIT {
        WORLD_LIMIT as int
    } else {
        v
    }
}

/// The nearest value of the world range, on machine integers.
pub fn clamp_to_world(v: i64) -> (r: i64)
    ensures
        r == clamp_world(v as int),
{
    if v < -WORLD_LIMIT {
        -WORLD_LIMIT
    } else if v > WORLD_LIMIT {
        WORLD_LIMIT
    } else {
        v
    }
}

/// Squared Euclidean distance between two points.
pub open spec fn dist2(a: Point, b: Point) -> int {
    (b.x - a.x) * (b.x - a.x) + (b.y - a.y) * (b.y - a.y)
}

/// The smallest `r` with `r * r >= n`.
pub open spec fn is_ceil_root(n: int, r: int) -> bool {
    &&& 0 <= r
    &&& r * r >= n
    &&& (r == 0 || (r - 1) * (r - 1) < n)
}

pub open spec fn ceil_root(n: int) -> int {
    choose|r: int| is_ceil_root(n, r)
}

proof fn lemma_square_monotone(a: int, b: int)
    requires
        0 <= a <= b,
    ensures
        a * a <= b * b,
{
    assert(a * a <= b * b) by (nonlinear_arith)
        requires
            0 <= a <= b,
    ;
}

/// The ceiling root is unique, so `ceil_root` names it.
pub proof fn lemma_ceil_root_unique(n: int, r: int)
    requires
        is_ceil_root(n, r),
    ensures
        ceil_root(n) == r,
{
    let c = ceil_root(n);
    assert(is_ceil_root(n, c));
    if c < r {
        lemma_square_monotone(c, r - 1);
    } else if r < c {
        lemma_square_monotone(r, c - 1);
    }
}

proof fn lemma_square_bound(d: int)
    requires
        -2 * WORLD_LIMIT <= d <= 2 * WORLD_LIMIT,
    ensures
        0 <= d * d <= 4 * WORLD_LIMIT * WORLD_LIMIT,
{
    assert(0 <= d * d <= 4 * 1073741824 * 1073741824) by (nonlinear_arith)
        requires
            -2 * 1073741824 <= d <= 2 * 1073741824,
    ;
}

/// Squared distance of two points of the world.
pub fn squared_distance(a: Point, b: Point) -> (r: u64)
    requires
        a.in_world(),
        b.in_world(),
    ensures
        r == dist2(a, b),
        r <= 8 * WORLD_LIMIT * WORLD_LIMIT,
{
    let dx: i64 = b.x - a.x;
    let dy: i64 = b.y - a.y;
    proof {
        lemma_square_bound(dx as int);
        lemma_square_bound(dy as int);
    }
    let sx: i64 = dx * dx;
    let sy: i64 = dy * dy;
    sx as u64 + sy as u64
}

/// The smallest `r` with `r * r >= n`, found by bisection.
pub fn ceil_sqrt(n: u64) -> (r: u64)
    ensures
        r == ceil_root(n as int),
        is_ceil_root(n as int, r as int),
        r <= 4294967296,
{
    let mut lo: u64 = 0;
    let mut hi: u64 = 4294967296;
    proof {
        assert(4294967296int * 4294967296int > u64::MAX) by (nonlinear_arith);
    }
    while lo < hi
        invariant
            lo <= hi <= 4294967296,
            (hi as int) * (hi as int) >= n,
            lo == 0 || (lo - 1) * (lo - 1) < n,
        decreases hi - lo,
    {
        let mid: u64 = lo + (hi - lo) / 2;
        proof {
            lemma_square_monotone(mid as int, 4294967296);
        }
        let sq: u128 = (mid as u128) * (mid as u128);
        if sq >= n as u128 {
            hi = mid;
        } else {
            lo = mid + 1;
        }
    }
    proof {
        lemma_ceil_root_unique(n as int, lo as int);
    }
    lo
}

} // verus!
