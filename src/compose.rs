//! Painting classified disks onto a white plate.
use vstd::prelude::*;
use crate::canvas::{
    Plate, plate_size, plate_pixels, in_image, opaque, raw_pixel, circle_pixels, DRAW_LIMIT,
};
use crate::circle::{Circle, RADIUS_SCALE};
use crate::color::{Color, color_for, palette_of, inside_palette, outside_palette};

verus! {

/// The background of a plate.
pub open spec fn white() -> Color {
    Color { red: 255, green: 255, blue: 255 }
}

/// A pixel of a finished plate: the opaque background, or an opaque colour of
/// one of the two palettes.
pub open spec fn plate_color(p: (u8, u8, u8, u8)) -> bool {
    ||| p == opaque(white())
    ||| exists|c: Color|
        (inside_palette().contains(c) || outside_palette().contains(c)) && p == #[trigger] opaque(c)
}

/// The whole of the disk, in whole pixels, lies within `DRAW_LIMIT`.
pub open spec fn drawable(c: Circle) -> bool {
    let r = c.radius / RADIUS_SCALE;
    &&& -DRAW_LIMIT <= c.center.x - r
    &&& c.center.x + r <= DRAW_LIMIT
    &&& -DRAW_LIMIT <= c.center.y - r
    &&& c.center.y + r <= DRAW_LIMIT
}

/// The pixels painted for a disk: a filled circle of its radius truncated to
/// whole pixels.
pub open spec fn disk_pixels(c: Circle) -> Set<(int, int)> {
    circle_pixels(c.center.x, c.center.y, (c.radius / RADIUS_SCALE) as i32)
}

/// `after` is `before` with the disk `c` painted in colour `col`: the image
/// pixels of the disk take the colour, the others keep their value.
pub open spec fn painted_with(before: Plate, after: Plate, c: Circle, col: Color) -> bool {
    &&& plate_size(after) == plate_size(before)
    &&& forall|x: u32, y: u32|
        in_image(plate_size(before), x, y) ==> #[trigger] plate_pixels(after)[(x, y)] == if disk_pixels(
            c,
        ).contains((x as int, y as int)) {
            opaque(col)
        } else {
            plate_pixels(before)[(x, y)]
        }
}

/// The side that a classified disk stands on.
pub open spec fn side_of(c: Circle) -> crate::circle::IshiharaColor {
    c.ishihara_color->Some_0
}

/// The pixel at `(x, y)` after painting, on white, the first `n` disks of `s`
/// in order, disk `k` in colour `cs[k]`: the colour of the last of them that
/// covers it, else white.
pub open spec fn paint_at(s: Seq<Circle>, cs: Seq<Color>, n: int, x: int, y: int) -> (
    u8,
    u8,
    u8,
    u8,
)
    decreases n,
{
    if n <= 0 {
        opaque(white())
    } else if disk_pixels(s[n - 1]).contains((x, y)) {
        opaque(cs[n - 1])
    } else {
        paint_at(s, cs, n - 1, x, y)
    }
}

/// `raw` is the plate of `width` by `height` pixels on which the disks of `s`
/// are painted on white, in order, disk `k` in colour `cs[k]` of its side's
/// palette.
pub open spec fn painted_plate(s: Seq<Circle>, cs: Seq<Color>, width: u32, height: u32, raw: Seq<
    u8,
>) -> bool {
    &&& cs.len() == s.len()
    &&& forall|k: int| 0 <= k < s.len() ==> palette_of(side_of(s[k])).contains(#[trigger] cs[k])
    &&& forall|x: u32, y: u32|
        in_image((width, height), x, y) ==> #[trigger] raw_pixel(raw, width as int, x as int, y as int)
            == paint_at(s, cs, s.len() as int, x as int, y as int)
}

/// Painting depends only on the colours of the disks painted.
pub proof fn lemma_paint_prefix(s: Seq<Circle>, cs: Seq<Color>, ds: Seq<Color>, n: int, x: int, y: int)
    requires
        n <= cs.len(),
        n <= ds.len(),
        forall|k: int| 0 <= k < n ==> cs[k] == ds[k],
    ensures
        paint_at(s, cs, n, x, y) == paint_at(s, ds, n, x, y),
    decreases n,
{
    if n > 0 {
        lemma_paint_prefix(s, cs, ds, n - 1, x, y);
    }
}

impl Circle {
    /// Paints the disk in a colour of its side's palette, drawn from `rng`:
    /// the pixels of its filled circle take the colour, all others keep their
    /// value; no pixel farther than the radius from the center on either axis
    /// changes. Pixels outside the image are clipped.
    pub(crate) fn draw(&self, plate: &mut Plate, rng: &mut rand::rngs::StdRng)
        requires
            self.ishihara_color is Some,
            drawable(*self),
            plate_size(*old(plate)).0 <= i32::MAX,
            plate_size(*old(plate)).1 <= i32::MAX,
        ensures
            forall|x: u32, y: u32|
                in_image(plate_size(*old(plate)), x, y) && !(self.center.x - self.radius
                    / RADIUS_SCALE <= x <= self.center.x + self.radius / RADIUS_SCALE
                    && self.center.y - self.radius / RADIUS_SCALE <= y <= self.center.y
                    + self.radius / RADIUS_SCALE) ==> #[trigger] plate_pixels(*final(plate))[(x, y)]
                    == plate_pixels(*old(plate))[(x, y)],
            exists|col: Color|
                palette_of(side_of(*self)).contains(col) && #[trigger] painted_with(
                    *old(plate),
                    *final(plate),
                    *self,
                    col,
                ),
    {
        let side = match self.ishihara_color {
            Some(s) => s,
            None => return ,
        };
        let color = color_for(side, rng);
        plate.fill_circle(self.center.x, self.center.y, (self.radius / RADIUS_SCALE) as i32, color);
        assert(painted_with(*old(plate), *plate, *self, color));
    }
}

/// Paints a `width` by `height` plate: opaque white, then each classified disk
/// in order, in a colour of its side's palette drawn from `rng`. A pixel
/// takes the colour of the last disk whose filled circle covers it, and stays
/// white if none does; so every pixel is white or a palette colour. The
/// result holds the channels (red, green, blue, alpha) of each pixel, row by
/// row.
pub fn composite(width: u32, height: u32, circles: &[Circle], rng: &mut rand::rngs::StdRng) -> (r:
    Vec<u8>)
    requires
        0 < width <= i32::MAX,
        0 < height <= i32::MAX,
        4 * (width as int) * (height as int) <= isize::MAX,
        forall|i: int|
            0 <= i < circles@.len() ==> (#[trigger] circles@[i]).ishihara_color is Some && drawable(
                circles@[i],
            ),
    ensures
        r@.len() == 4 * width * height,
        exists|cs: Seq<Color>| #[trigger] painted_plate(circles@, cs, width, height, r@),
        forall|x: u32, y: u32|
            in_image((width, height), x, y) ==> plate_color(
                #[trigger] raw_pixel(r@, width as int, x as int, y as int),
            ),
{
    let mut plate = Plate::new_blank(width, height);
    plate.fill(Color { red: 255, green: 255, blue: 255 });
    let ghost mut cs: Seq<Color> = Seq::empty();
    let mut i: usize = 0;
    while i < circles.len()
        invariant
            i <= circles@.len(),
            forall|k: int|
                0 <= k < circles@.len() ==> (#[trigger] circles@[k]).ishihara_color is Some
                    && drawable(circles@[k]),
            plate_size(plate) == (width, height),
            width <= i32::MAX,
            height <= i32::MAX,
            cs.len() == i,
            forall|k: int|
                0 <= k < i ==> palette_of(side_of(circles@[k])).contains(#[trigger] cs[k]),
            forall|x: u32, y: u32|
                in_image((width, height), x, y) ==> #[trigger] plate_pixels(plate)[(x, y)]
                    == paint_at(circles@, cs, i as int, x as int, y as int),
            forall|x: u32, y: u32|
                in_image((width, height), x, y) ==> plate_color(
                    #[trigger] plate_pixels(plate)[(x, y)],
                ),
        decreases circles@.len() - i,
    {
        let ghost before = plate;
        let c = &circles[i];
        assert(c.ishihara_color is Some && drawable(*c));
        c.draw(&mut plate, rng);
        let ghost color = choose|color: Color|
            palette_of(side_of(*c)).contains(color) && #[trigger] painted_with(
                before,
                plate,
                *c,
                color,
            );
        let ghost next = cs.push(color);
        assert forall|x: u32, y: u32| in_image((width, height), x, y) implies #[trigger] plate_pixels(
            plate,
        )[(x, y)] == paint_at(circles@, next, i + 1, x as int, y as int) && plate_color(
            plate_pixels(plate)[(x, y)],
        ) by {
            lemma_paint_prefix(circles@, cs, next, i as int, x as int, y as int);
            assert(plate_color(plate_pixels(before)[(x, y)]));
            assert(plate_pixels(before)[(x, y)] == paint_at(circles@, cs, i as int, x as int, y as int));
            if disk_pixels(*c).contains((x as int, y as int)) {
                assert(plate_pixels(plate)[(x, y)] == opaque(color));
            }
        }
        proof {
            cs = next;
        }
        i = i + 1;
    }
    let raw = plate.into_raw();
    assert(circles@.len() == i);
    assert forall|x: u32, y: u32| in_image((width, height), x, y) implies plate_color(
        #[trigger] raw_pixel(raw@, width as int, x as int, y as int),
    ) && raw_pixel(raw@, width as int, x as int, y as int) == paint_at(
        circles@,
        cs,
        circles@.len() as int,
        x as int,
        y as int,
    ) by {
        assert(plate_pixels(plate)[(x, y)] == raw_pixel(raw@, width as int, x as int, y as int));
    }
    assert(painted_plate(circles@, cs, width, height, raw@));
    raw
}

} // verus!
