//! Randomized incremental packing of disks over a canvas.
use vstd::prelude::*;
use crate::geometry::{Point2D, dist_sq};
use crate::circle::{
    lemma_clear_of_smaller, Circle, MIN_RADIUS, MAX_RADIUS, clears, clear_of, is_max_radius, max_allowed_radius,
    separated, well_packed, radius_in_bounds, inside_canvas,
};
use crate::random::random_below;

verus! {

/// Numerator of the rational stand-in for pi: 103993/33102, just under pi
/// (by less than 6e-10), so that reaching the goal with it reaches it with pi.
pub const PI_NUM: u128 = 103993;

/// Denominator of the rational stand-in for pi.
pub const PI_DEN: u128 = 33102;

/// Share of the canvas, in hundredths, that the disks must cover.
pub const COVERAGE_PERCENT: u128 = 57;

/// Why packing produced no disk set.
#[derive(Clone, Copy, Debug, PartialEq, Eq, Structural)]
pub enum PackError {
    /// The canvas has no pixel.
    EmptyCanvas,
    /// The cap on rejected candidates was hit before the coverage goal.
    PackingUnreachable,
}

/// Sum of the squared radii of `s`, in hundredths of a square pixel.
pub open spec fn sum_sq(s: Seq<Circle>) -> int
    decreases s.len(),
{
    if s.len() == 0 {
        0
    } else {
        sum_sq(s.drop_last()) + s.last().radius * s.last().radius
    }
}

/// Goal of the coverage in the units of `PI_NUM * sum_sq`:
/// `pi * sum(r^2) >= 0.57 * width * height`, with radii in tenths.
pub open spec fn coverage_goal(width: int, height: int) -> int {
    COVERAGE_PERCENT * PI_DEN * width * height
}

/// The disks of `s` cover the target share of a `width` by `height` canvas.
pub open spec fn coverage_reached(s: Seq<Circle>, width: int, height: int) -> bool {
    PI_NUM * sum_sq(s) >= coverage_goal(width, height)
}

/// The squared distance does not depend on the order of the two points.
pub proof fn lemma_dist_sq_symmetric(p: Point2D, q: Point2D)
    ensures
        dist_sq(p, q) == dist_sq(q, p),
{
    assert((q.x - p.x) * (q.x - p.x) == (p.x - q.x) * (p.x - q.x)) by (nonlinear_arith);
    assert((q.y - p.y) * (q.y - p.y) == (p.y - q.y) * (p.y - q.y)) by (nonlinear_arith);
}

/// Adding a disk that is in bounds, inside the canvas and clear of every disk
/// keeps a set well packed.
pub proof fn lemma_push_well_packed(s: Seq<Circle>, c: Circle, width: int, height: int)
    requires
        well_packed(s, width, height),
        radius_in_bounds(c),
        inside_canvas(c.center, width, height),
        c.ishihara_color is None,
        clears(c.center, c.radius as int, s),
    ensures
        well_packed(s.push(c), width, height),
{
    let t = s.push(c);
    assert forall|i: int, j: int|
        0 <= i < t.len() && 0 <= j < t.len() && i != j implies #[trigger] separated(t[i], t[j]) by {
        if j == s.len() {
            assert(clear_of(c.center, c.radius as int, s[i]));
            lemma_dist_sq_symmetric(c.center, s[i].center);
        } else if i == s.len() {
            assert(clear_of(c.center, c.radius as int, s[j]));
        } else {
            assert(separated(s[i], s[j]));
        }
    }
    assert forall|i: int| 0 <= i < t.len() implies {
        &&& radius_in_bounds(#[trigger] t[i])
        &&& inside_canvas(t[i].center, width, height)
        &&& t[i].ishihara_color is None
    } by {
        if i < s.len() {
            assert(radius_in_bounds(s[i]));
        }
    }
}

/// One step of packing, for a given candidate center: when a radius of at
/// least `MIN_RADIUS` is admissible there, a disk of the largest admissible
/// radius is appended and that radius returned; otherwise nothing changes.
pub fn place_candidate(circles: &mut Vec<Circle>, candidate: Point2D) -> (r: Option<u32>)
    ensures
        match r {
            Some(v) => {
                &&& is_max_radius(candidate, old(circles)@, v as int)
                &&& final(circles)@ == old(circles)@.push(
                    Circle { center: candidate, radius: v, ishihara_color: None },
                )
            },
            None => {
                &&& !clears(candidate, MIN_RADIUS as int, old(circles)@)
                &&& final(circles)@ == old(circles)@
            },
        },
{
    match max_allowed_radius(&candidate, circles.as_slice()) {
        Some(radius) => {
            circles.push(Circle { center: candidate, radius, ishihara_color: None });
            Some(radius)
        },
        None => None,
    }
}

/// The sum of squared radii grows by the square of the radius appended.
pub proof fn lemma_sum_sq_push(s: Seq<Circle>, c: Circle)
    ensures
        sum_sq(s.push(c)) == sum_sq(s) + c.radius * c.radius,
{
    assert(s.push(c).drop_last() =~= s);
}

/// Each disk of `s` has the largest radius admissible beside the disks
/// placed before it.
pub open spec fn greedy(s: Seq<Circle>) -> bool {
    forall|i: int|
        0 <= i < s.len() ==> is_max_radius(#[trigger] s[i].center, s.take(i), s[i].radius as int)
}

/// Appending a disk of the largest admissible radius keeps a set greedy.
pub proof fn lemma_push_greedy(s: Seq<Circle>, c: Circle)
    requires
        greedy(s),
        is_max_radius(c.center, s, c.radius as int),
    ensures
        greedy(s.push(c)),
{
    let t = s.push(c);
    assert forall|i: int| 0 <= i < t.len() implies is_max_radius(
        #[trigger] t[i].center,
        t.take(i),
        t[i].radius as int,
    ) by {
        if i < s.len() {
            assert(t.take(i) =~= s.take(i));
            assert(t[i] == s[i]);
        } else {
            assert(t.take(i) =~= s);
        }
    }
}

/// Clearance from a whole set is kept by every smaller radius.
pub proof fn lemma_clears_smaller(p: Point2D, r: int, q: int, s: Seq<Circle>)
    requires
        0 <= q <= r,
        clears(p, r, s),
    ensures
        clears(p, q, s),
{
    assert forall|i: int| 0 <= i < s.len() implies #[trigger] clear_of(p, q, s[i]) by {
        lemma_clear_of_smaller(p, r, q, s[i]);
    }
}

/// One step of packing with a drawn candidate center. When a radius of at
/// least `MIN_RADIUS` is admissible there, the disk of the largest admissible
/// radius `v` is appended, `PI_NUM * v * v` added to `covered`, and `Some(v)`
/// returned. Otherwise the candidate is rejected: if `rejections` has reached
/// `max_rejections` the step fails with `PackingUnreachable` and changes
/// nothing; else `rejections` grows by one and `None` is returned.
pub fn pack_step(
    circles: &mut Vec<Circle>,
    covered: &mut u128,
    rejections: &mut u64,
    max_rejections: u64,
    candidate: Point2D,
) -> (r: Result<Option<u32>, PackError>)
    requires
        *old(covered) <= 0x1_0000_0000_0000_0000_0000_0000,
        *old(rejections) <= max_rejections,
    ensures
        r matches Err(e) ==> e == PackError::PackingUnreachable,
        r matches Ok(Some(_)) <==> clears(candidate, MIN_RADIUS as int, old(circles)@),
        r == Err::<Option<u32>, PackError>(PackError::PackingUnreachable) <==> (!clears(
            candidate,
            MIN_RADIUS as int,
            old(circles)@,
        ) && *old(rejections) == max_rejections),
        r matches Ok(Some(v)) ==> {
            &&& is_max_radius(candidate, old(circles)@, v as int)
            &&& final(circles)@ == old(circles)@.push(
                Circle { center: candidate, radius: v, ishihara_color: None },
            )
            &&& *final(covered) == *old(covered) + PI_NUM * (v * v)
            &&& *final(rejections) == *old(rejections)
        },
        r == Ok::<Option<u32>, PackError>(None) ==> {
            &&& final(circles)@ == old(circles)@
            &&& *final(covered) == *old(covered)
            &&& *final(rejections) == *old(rejections) + 1
        },
        r is Err ==> {
            &&& final(circles)@ == old(circles)@
            &&& *final(covered) == *old(covered)
            &&& *final(rejections) == *old(rejections)
        },
{
    let ghost before = circles@;
    match place_candidate(circles, candidate) {
        Some(radius) => {
            proof {
                lemma_clears_smaller(candidate, radius as int, MIN_RADIUS as int, before);
            }
            assert(radius * radius <= MAX_RADIUS * MAX_RADIUS) by (nonlinear_arith)
                requires
                    radius <= MAX_RADIUS,
            ;
            let square: u128 = (radius as u128) * (radius as u128);
            *covered = *covered + PI_NUM * square;
            Ok(Some(radius))
        },
        None => {
            if *rejections == max_rejections {
                Err(PackError::PackingUnreachable)
            } else {
                *rejections = *rejections + 1;
                Ok(None)
            }
        },
    }
}

impl Circle {
    /// Packs disks over a `width` by `height` canvas until they cover the
    /// target share of it. Candidate centers are drawn from `rng` over the
    /// canvas and handed to `pack_step`: each is given the largest admissible
    /// radius, or rejected when that falls under `MIN_RADIUS`. After
    /// `max_rejections` rejected candidates a further rejection ends the
    /// packing with `PackingUnreachable`. Packing stops at the first disk that
    /// reaches the goal. A canvas small enough that one disk of `MAX_RADIUS`
    /// reaches the goal always succeeds. Disks near an edge may reach past
    /// it: their whole area is counted.
    pub fn create_circles(
        width: u32,
        height: u32,
        max_rejections: u64,
        rng: &mut rand::rngs::StdRng,
    ) -> (r: Result<Vec<Circle>, PackError>)
        requires
            width <= i32::MAX,
            height <= i32::MAX,
        ensures
            r == Err::<Vec<Circle>, PackError>(PackError::EmptyCanvas) <==> (width == 0 || height
                == 0),
            (width > 0 && height > 0 && coverage_goal(width as int, height as int) <= PI_NUM
                * MAX_RADIUS * MAX_RADIUS) ==> r is Ok,
            r matches Ok(s) ==> {
                &&& well_packed(s@, width as int, height as int)
                &&& greedy(s@)
                &&& coverage_reached(s@, width as int, height as int)
                &&& s@.len() >= 1
                &&& !coverage_reached(s@.drop_last(), width as int, height as int)
            },
    {
        if width == 0 || height == 0 {
            return Err(PackError::EmptyCanvas);
        }
        assert((width as int) * (height as int) <= 0x1_0000_0000_0000_0000) by (nonlinear_arith)
            requires
                0 <= width <= i32::MAX,
                0 <= height <= i32::MAX,
        ;
        assert((width as int) * (height as int) >= 1) by (nonlinear_arith)
            requires
                1 <= width,
                1 <= height,
        ;
        let area: u128 = (width as u128) * (height as u128);
        let goal: u128 = COVERAGE_PERCENT * PI_DEN * area;
        assert(goal == coverage_goal(width as int, height as int)) by (nonlinear_arith)
            requires
                area == width * height,
                goal == COVERAGE_PERCENT * PI_DEN * area,
        ;
        let ghost small = goal <= PI_NUM * MAX_RADIUS * MAX_RADIUS;
        let mut circles: Vec<Circle> = Vec::new();
        let mut covered: u128 = 0;
        let mut rejections: u64 = 0;
        while covered < goal
            invariant
                0 < width <= i32::MAX,
                0 < height <= i32::MAX,
                goal == coverage_goal(width as int, height as int),
                0 < goal <= 0x1_0000_0000_0000_0000_0000_00,
                small == (goal <= PI_NUM * MAX_RADIUS * MAX_RADIUS),
                covered == PI_NUM * sum_sq(circles@),
                well_packed(circles@, width as int, height as int),
                greedy(circles@),
                circles@.len() > 0 ==> !coverage_reached(
                    circles@.drop_last(),
                    width as int,
                    height as int,
                ),
                small && covered < goal ==> circles@.len() == 0,
                rejections <= max_rejections,
            decreases (if covered < goal { goal - covered } else { 0 }), max_rejections - rejections,
        {
            let x = random_below(rng, width);
            let y = random_below(rng, height);
            let candidate = Point2D { x: x as i32, y: y as i32 };
            let ghost before = circles@;
            let ghost covered_before = covered;
            match pack_step(&mut circles, &mut covered, &mut rejections, max_rejections, candidate) {
                Ok(Some(radius)) => {
                    let c = Circle { center: candidate, radius, ishihara_color: None };
                    proof {
                        lemma_push_well_packed(before, c, width as int, height as int);
                        lemma_push_greedy(before, c);
                        lemma_sum_sq_push(before, c);
                        assert(circles@.drop_last() =~= before);
                        assert(radius * radius >= 1) by (nonlinear_arith)
                            requires
                                radius >= MIN_RADIUS,
                        ;
                        if small {
                            assert(before.len() == 0);
                            assert(clears(candidate, radius + 1, before));
                            assert(radius == MAX_RADIUS);
                            assert(sum_sq(before) == 0);
                            assert(covered_before == 0);
                            assert(covered == PI_NUM * (69 * 69));
                        }
                    }
                },
                Ok(None) => {
                    proof {
                        if small {
                            assert(before.len() == 0);
                            assert(clears(candidate, MIN_RADIUS as int, before));
                        }
                    }
                },
                Err(e) => {
                    return Err(e);
                },
            }
        }
        proof {
            if circles@.len() == 0 {
                assert(sum_sq(circles@) == 0);
            }
        }
        Ok(circles)
    }
}

} // verus!
