//! A whole plate from the opacity mask of the hidden text.
use vstd::prelude::*;
use crate::canvas::{in_image, raw_pixel};
use crate::circle::{Circle, well_packed, MAX_RADIUS, radius_in_bounds, inside_canvas};
use crate::classify::{Mask, classify, classified};
use crate::compose::{composite, plate_color, drawable, painted_plate};
use crate::color::Color;
use crate::packer::{PackError, coverage_reached, coverage_goal, greedy, PI_NUM};

verus! {

/// Largest side of a plate: every disk on it can be drawn (see `DRAW_LIMIT`).
pub const MAX_SIDE: u32 = 0xff_0000;

/// Packs disks over the mask's canvas, labels each by the mask pixel under
/// its center, and paints them on a white plate. Returns the labelled disks
/// and the plate's pixels as four channels each (red, green, blue, alpha),
/// row by row. `EmptyCanvas` comes exactly for a mask without pixels;
/// `PackingUnreachable` when more than `max_rejections` candidates are
/// rejected before the coverage goal. A canvas small enough that one disk
/// of `MAX_RADIUS` reaches the goal always succeeds.
pub fn generate(mask: &Mask, max_rejections: u64, rng: &mut rand::rngs::StdRng) -> (r: Result<
    (Vec<Circle>, Vec<u8>),
    PackError,
>)
    requires
        mask.wf(),
        mask.width <= MAX_SIDE,
        mask.height <= MAX_SIDE,
        4 * (mask.width as int) * (mask.height as int) <= isize::MAX,
    ensures
        r matches Err(e) && e == PackError::EmptyCanvas <==> (mask.width == 0 || mask.height == 0),
        (mask.width > 0 && mask.height > 0 && coverage_goal(mask.width as int, mask.height as int)
            <= PI_NUM * MAX_RADIUS * MAX_RADIUS) ==> r is Ok,
        r matches Ok((s, p)) ==> {
            &&& exists|packed: Seq<Circle>|
                {
                    &&& well_packed(packed, mask.width as int, mask.height as int)
                    &&& greedy(packed)
                    &&& coverage_reached(packed, mask.width as int, mask.height as int)
                    &&& packed.len() >= 1
                    &&& !coverage_reached(packed.drop_last(), mask.width as int, mask.height as int)
                    &&& #[trigger] classified(packed, *mask) == s@
                }
            &&& p@.len() == 4 * mask.width * mask.height
            &&& (exists|cs: Seq<Color>| #[trigger] painted_plate(s@, cs, mask.width, mask.height, p@))
            &&& forall|x: u32, y: u32|
                in_image((mask.width, mask.height), x, y) ==> plate_color(
                    #[trigger] raw_pixel(p@, mask.width as int, x as int, y as int),
                )
        },
{
    let packed = match Circle::create_circles(mask.width, mask.height, max_rejections, rng) {
        Ok(v) => v,
        Err(e) => return Err(e),
    };
    let labelled = classify(packed.as_slice(), mask);
    assert forall|i: int| 0 <= i < labelled@.len() implies (#[trigger] labelled@[i]).ishihara_color
        is Some && drawable(labelled@[i]) by {
        assert(labelled@[i] == crate::classify::classified_circle(packed@[i], *mask));
        assert(radius_in_bounds(packed@[i]));
        assert(inside_canvas(packed@[i].center, mask.width as int, mask.height as int));
        assert(packed@[i].radius / 10 <= MAX_RADIUS / 10);
    }
    let p = composite(mask.width, mask.height, labelled.as_slice(), rng);
    assert(classified(packed@, *mask) == labelled@);
    assert(exists|t: Seq<Circle>|
        {
            &&& well_packed(t, mask.width as int, mask.height as int)
            &&& greedy(t)
            &&& coverage_reached(t, mask.width as int, mask.height as int)
            &&& t.len() >= 1
            &&& !coverage_reached(t.drop_last(), mask.width as int, mask.height as int)
            &&& #[trigger] classified(t, *mask) == labelled@
        }) by {
        assert(classified(packed@, *mask) == labelled@);
    }
    let r: Result<(Vec<Circle>, Vec<u8>), PackError> = Ok((labelled, p));
    assert(r->Ok_0.0@ == labelled@ && r->Ok_0.1@ == p@);
    r
}

} // verus!
