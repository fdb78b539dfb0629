//! Integer canvas points and exact distance arithmetic.
use vstd::prelude::*;

verus! {

/// `r` is the integer square root of `n`, rounded down.
pub open spec fn is_floor_sqrt(n: int, r: int) -> bool {
    0 <= r && r * r <= n && n < (r + 1) * (r + 1)
}

/// For a non-negative `k`, `k * k <= n` exactly when `k` is at most the floor square root.
pub proof fn lemma_square_le_iff(n: int, d: int, k: int)
    requires
        is_floor_sqrt(n, d),
        0 <= k,
    ensures
        k * k <= n <==> k <= d,
{
    if k <= d {
        assert(k * k <= d * d) by (nonlinear_arith)
            requires
                0 <= k <= d,
        ;
    } else {
        assert((d + 1) * (d + 1) <= k * k) by (nonlinear_arith)
            requires
                0 <= d + 1 <= k,
        ;
    }
}

/// Integer square root, rounded down.
pub fn floor_sqrt(n: u128) -> (r: u64)
    ensures
        is_floor_sqrt(n as int, r as int),
{
    let mut lo: u128 = 0;
    let mut hi: u128 = 0x1_0000_0000_0000_0000;
    assert(n < hi * hi);
    while hi - lo > 1
        invariant
            lo < hi <= 0x1_0000_0000_0000_0000,
            lo * lo <= n,
            n < hi * hi,
        decreases hi - lo,
    {
        let mid: u128 = lo + (hi - lo) / 2;
        assert(mid * mid < 0x1_0000_0000_0000_0000 * 0x1_0000_0000_0000_0000) by (nonlinear_arith)
            requires
                mid < 0x1_0000_0000_0000_0000,
        ;
        if mid * mid <= n {
            lo = mid;
        } else {
            hi = mid;
        }
    }
    assert(hi == lo + 1);
    lo as u64
}

/// A point of the canvas, in whole pixels.
#[derive(Clone, Copy, Debug, PartialEq, Eq, Structural, Default)]
pub struct Point2D {
    pub x: i32,
    pub y: i32,
}

/// The squared Euclidean distance between two points.
pub open spec fn dist_sq(p: Point2D, q: Point2D) -> int {
    (q.x - p.x) * (q.x - p.x) + (q.y - p.y) * (q.y - p.y)
}

impl Point2D {
    pub fn new(x: i32, y: i32) -> (r: Point2D)
        ensures
            r.x == x,
            r.y == y,
    {
        Point2D { x, y }
    }

    /// The squared Euclidean distance to `other`, exactly.
    pub fn distance_sq(&self, other: &Point2D) -> (r: u128)
        ensures
            r == dist_sq(*self, *other),
            r <= 0x2_0000_0000_0000_0000,
    {
        let dx: i128 = other.x as i128 - self.x as i128;
        let dy: i128 = other.y as i128 - self.y as i128;
        assert(0 <= dx * dx <= 0x1_0000_0000 * 0x1_0000_0000) by (nonlinear_arith)
            requires
                -0x1_0000_0000 <= dx <= 0x1_0000_0000,
        ;
        assert(0 <= dy * dy <= 0x1_0000_0000 * 0x1_0000_0000) by (nonlinear_arith)
            requires
                -0x1_0000_0000 <= dy <= 0x1_0000_0000,
        ;
        (dx * dx + dy * dy) as u128
    }

    /// The Euclidean distance to `other` in tenths of a pixel, rounded down.
    pub fn distance_tenths(&self, other: &Point2D) -> (r: u64)
        ensures
            is_floor_sqrt(100 * dist_sq(*self, *other), r as int),
            r < 0x10_0000_0000,
    {
        let d = self.distance_sq(other);
        let r = floor_sqrt(100 * d);
        assert(r < 0x10_0000_0000) by (nonlinear_arith)
            requires
                r * r <= 100 * d,
                d <= 0x2_0000_0000_0000_0000,
                0 <= r,
        ;
        r
    }
}

} // verus!
