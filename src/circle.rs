//! Disks and the rule that sizes a new disk against those already placed.
//!
//! Lengths are held in tenths of a pixel, so the sizing rule and the
//! clearance between disks are decided exactly in integers.
use vstd::prelude::*;
use crate::geometry::{Point2D, dist_sq, is_floor_sqrt, lemma_square_le_iff};

verus! {

/// Tenths of a pixel per pixel: the unit of every radius.
pub const RADIUS_SCALE: u32 = 10;

/// Largest radius of a disk (6.9 pixels).
pub const MAX_RADIUS: u32 = 69;

/// Smallest radius of a disk (3.0 pixels).
pub const MIN_RADIUS: u32 = 30;

/// Least clearance between the edges of two disks (1 pixel).
pub const GAP: u32 = 10;

/// Which side of the hidden silhouette a disk stands on.
#[derive(Clone, Copy, Debug, PartialEq, Eq, Structural)]
pub enum IshiharaColor {
    Inside,
    Outside,
}

/// A disk of the plate: a center, a radius in tenths of a pixel, and the
/// side of the silhouette once it has been classified.
#[derive(Clone, Copy, Debug, PartialEq, Eq, Structural)]
pub struct Circle {
    pub center: Point2D,
    pub radius: u32,
    pub ishihara_color: Option<IshiharaColor>,
}

/// A disk of radius `r` at `p` keeps the clearance from `c`.
pub open spec fn clear_of(p: Point2D, r: int, c: Circle) -> bool {
    (r + c.radius + GAP) * (r + c.radius + GAP) <= 100 * dist_sq(p, c.center)
}

/// A disk of radius `r` at `p` keeps the clearance from every disk of `s`.
pub open spec fn clears(p: Point2D, r: int, s: Seq<Circle>) -> bool {
    forall|i: int| 0 <= i < s.len() ==> #[trigger] clear_of(p, r, s[i])
}

/// Two disks keep the clearance from each other.
pub open spec fn separated(a: Circle, b: Circle) -> bool {
    clear_of(a.center, a.radius as int, b)
}

/// No two distinct disks of `s` come closer than the clearance.
pub open spec fn non_overlapping(s: Seq<Circle>) -> bool {
    forall|i: int, j: int|
        0 <= i < s.len() && 0 <= j < s.len() && i != j ==> #[trigger] separated(s[i], s[j])
}

pub open spec fn radius_in_bounds(c: Circle) -> bool {
    MIN_RADIUS <= c.radius <= MAX_RADIUS
}

pub open spec fn inside_canvas(p: Point2D, width: int, height: int) -> bool {
    0 <= p.x < width && 0 <= p.y < height
}

/// What the packer builds: unclassified disks inside the canvas, with radii
/// in bounds, that keep the clearance pairwise.
pub open spec fn well_packed(s: Seq<Circle>, width: int, height: int) -> bool {
    &&& non_overlapping(s)
    &&& forall|i: int|
        0 <= i < s.len() ==> {
            &&& radius_in_bounds(#[trigger] s[i])
            &&& inside_canvas(s[i].center, width, height)
            &&& s[i].ishihara_color is None
        }
}

/// The admissible radius at `p` is `r`: the largest radius up to `MAX_RADIUS`
/// that keeps the clearance from every disk of `s`, and at least `MIN_RADIUS`.
pub open spec fn is_max_radius(p: Point2D, s: Seq<Circle>, r: int) -> bool {
    &&& MIN_RADIUS <= r <= MAX_RADIUS
    &&& clears(p, r, s)
    &&& r < MAX_RADIUS ==> !clears(p, r + 1, s)
}

/// Clearance is kept by every smaller radius.
pub proof fn lemma_clear_of_smaller(p: Point2D, r: int, q: int, c: Circle)
    requires
        0 <= q <= r,
        clear_of(p, r, c),
    ensures
        clear_of(p, q, c),
{
    let a = q + c.radius + GAP;
    let b = r + c.radius + GAP;
    assert(a * a <= b * b) by (nonlinear_arith)
        requires
            0 <= a <= b,
    ;
}

/// With `d` the distance from `p` to the center of `c` in tenths, rounded
/// down, a radius `r` keeps the clearance exactly when it fits under `d`.
pub proof fn lemma_clear_of_iff(p: Point2D, r: int, c: Circle, d: int)
    requires
        0 <= r,
        is_floor_sqrt(100 * dist_sq(p, c.center), d),
    ensures
        clear_of(p, r, c) <==> r + c.radius + GAP <= d,
{
    lemma_square_le_iff(100 * dist_sq(p, c.center), d, r + c.radius + GAP);
}

/// The largest radius admissible at `candidate` beside `circles`: start from
/// `MAX_RADIUS` and shrink to each disk's edge less the clearance; `None`
/// when that falls under `MIN_RADIUS`.
pub fn max_allowed_radius(candidate: &Point2D, circles: &[Circle]) -> (r: Option<u32>)
    ensures
        match r {
            Some(v) => is_max_radius(*candidate, circles@, v as int),
            None => !clears(*candidate, MIN_RADIUS as int, circles@),
        },
{
    let mut curr: i64 = MAX_RADIUS as i64;
    let mut i: usize = 0;
    while i < circles.len()
        invariant
            i <= circles@.len(),
            MIN_RADIUS <= curr <= MAX_RADIUS,
            clears(*candidate, curr as int, circles@.take(i as int)),
            curr < MAX_RADIUS ==> exists|j: int|
                0 <= j < i && !#[trigger] clear_of(*candidate, curr + 1, circles@[j]),
        decreases circles@.len() - i,
    {
        let other = &circles[i];
        let d = candidate.distance_tenths(&other.center);
        let edge: i64 = d as i64 - other.radius as i64 - GAP as i64;
        proof {
            lemma_clear_of_iff(*candidate, curr as int, *other, d as int);
            lemma_clear_of_iff(*candidate, MIN_RADIUS as int, *other, d as int);
        }
        if edge < curr {
            proof {
                if edge >= MIN_RADIUS {
                    lemma_clear_of_iff(*candidate, edge + 1, *other, d as int);
                    lemma_clear_of_iff(*candidate, edge as int, *other, d as int);
                    assert forall|k: int| 0 <= k < i + 1 implies #[trigger] clear_of(
                        *candidate,
                        edge as int,
                        circles@.take(i + 1)[k],
                    ) by {
                        if k < i {
                            assert(clear_of(*candidate, curr as int, circles@.take(i as int)[k]));
                            lemma_clear_of_smaller(*candidate, curr as int, edge as int, circles@[k]);
                        }
                    }
                }
            }
            curr = edge;
            if curr < (MIN_RADIUS as i64) {
                return None;
            }
        } else {
            proof {
                assert forall|k: int| 0 <= k < i + 1 implies #[trigger] clear_of(
                    *candidate,
                    curr as int,
                    circles@.take(i + 1)[k],
                ) by {
                    if k < i {
                        assert(clear_of(*candidate, curr as int, circles@.take(i as int)[k]));
                    }
                }
            }
        }
        i = i + 1;
    }
    assert(circles@.take(i as int) =~= circles@);
    Some(curr as u32)
}

} // verus!
