//! The pixel buffer of the plate, drawn with `image` and `imageproc`.
use vstd::prelude::*;
use crate::color::Color;

verus! {

/// The plate being painted: an RGBA image of the `image` crate, kept private
/// and described by its size (`plate_size`) and the channels of its pixels
/// (`plate_pixels`).
#[verifier::external_body]
pub struct Plate {
    img: image::RgbaImage,
}

/// Largest coordinate magnitude at which disks are drawn: imageproc steps
/// through circle rows by way of `f32`, exact on integers up to 2^24.
pub const DRAW_LIMIT: i32 = 0x100_0000;

/// Width and height of the image of a plate.
pub uninterp spec fn plate_size(p: Plate) -> (u32, u32);

/// The channels (red, green, blue, alpha) of each pixel of a plate.
pub uninterp spec fn plate_pixels(p: Plate) -> Map<(u32, u32), (u8, u8, u8, u8)>;

/// The pixels, on or off any image, that a filled circle of the given center
/// and radius covers, as imageproc draws it.
pub uninterp spec fn circle_pixels(cx: i32, cy: i32, radius: i32) -> Set<(int, int)>;

/// `(x, y)` lies inside an image of size `size`.
pub open spec fn in_image(size: (u32, u32), x: u32, y: u32) -> bool {
    x < size.0 && y < size.1
}

/// The four channels of pixel `(x, y)` in a row-major RGBA buffer of
/// `width` pixels per row.
pub open spec fn raw_pixel(b: Seq<u8>, width: int, x: int, y: int) -> (u8, u8, u8, u8) {
    let i = 4 * (y * width + x);
    (b[i], b[i + 1], b[i + 2], b[i + 3])
}

/// The fully opaque pixel of colour `c`.
pub open spec fn opaque(c: Color) -> (u8, u8, u8, u8) {
    (c.red, c.green, c.blue, 255u8)
}

impl Plate {
    /// Relies on `image::ImageBuffer::new`: an image of the given size. It
    /// panics when the buffer would not fit in memory, which `requires` leaves
    /// out.
    #[verifier::external_body]
    pub(crate) fn new_blank(width: u32, height: u32) -> (r: Plate)
        requires
            4 * (width as int) * (height as int) <= isize::MAX,
        ensures
            plate_size(r) == (width, height),
    {
        Plate { img: image::RgbaImage::new(width, height) }
    }

    /// Relies on `imageproc::drawing::draw_filled_rect_mut` over the whole
    /// image: every pixel takes the colour. `imageproc::rect::RectPosition::of_size`
    /// panics on a zero side, and `imageproc::rect::Rect` reads its sides as
    /// `i32`; `requires` leaves out both.
    #[verifier::external_body]
    pub(crate) fn fill(&mut self, color: Color)
        requires
            0 < plate_size(*old(self)).0 <= i32::MAX,
            0 < plate_size(*old(self)).1 <= i32::MAX,
        ensures
            plate_size(*final(self)) == plate_size(*old(self)),
            forall|x: u32, y: u32|
                in_image(plate_size(*old(self)), x, y) ==> #[trigger] plate_pixels(
                    *final(self),
                )[(x, y)] == opaque(color),
    {
        let (w, h) = self.img.dimensions();
        imageproc::drawing::draw_filled_rect_mut(
            &mut self.img,
            imageproc::rect::Rect::at(0, 0).of_size(w, h),
            image::Rgba([color.red, color.green, color.blue, 255]),
        );
    }

    /// Relies on `imageproc::drawing::draw_filled_circle_mut`: the pixels of
    /// the image among those it draws for the circle take the colour, the
    /// others keep their value, and the size is kept. Which pixels it draws
    /// depends on the center and radius alone (named `circle_pixels`); the
    /// row through the center, from `cx - radius` to `cx + radius`, is always
    /// among them (the second line segment it draws), and every pixel it
    /// draws lies within `radius` of the center on each axis (its loop keeps
    /// `x <= y <= radius`). Its `i32` and `f32` arithmetic stays exact within
    /// `DRAW_LIMIT`, which `requires` asks of the circle's extent; it keeps a
    /// point only below the image's sides read as `i32`, which `requires`
    /// keeps positive.
    #[verifier::external_body]
    pub(crate) fn fill_circle(&mut self, cx: i32, cy: i32, radius: i32, color: Color)
        requires
            plate_size(*old(self)).0 <= i32::MAX,
            plate_size(*old(self)).1 <= i32::MAX,
            0 <= radius,
            -DRAW_LIMIT <= cx - radius,
            cx + radius <= DRAW_LIMIT,
            -DRAW_LIMIT <= cy - radius,
            cy + radius <= DRAW_LIMIT,
        ensures
            plate_size(*final(self)) == plate_size(*old(self)),
            forall|x: u32, y: u32|
                in_image(plate_size(*old(self)), x, y) ==> #[trigger] plate_pixels(*final(self))[(
                    x,
                    y,
                )] == if circle_pixels(cx, cy, radius).contains((x as int, y as int)) {
                    opaque(color)
                } else {
                    plate_pixels(*old(self))[(x, y)]
                },
            forall|x: u32, y: u32|
                in_image(plate_size(*old(self)), x, y) && y == cy && cx - radius <= x <= cx
                    + radius ==> #[trigger] plate_pixels(*final(self))[(x, y)] == opaque(color),
            forall|x: u32, y: u32|
                in_image(plate_size(*old(self)), x, y) && !(cx - radius <= x <= cx + radius && cy
                    - radius <= y <= cy + radius) ==> #[trigger] plate_pixels(*final(self))[(x, y)]
                    == plate_pixels(*old(self))[(x, y)],
    {
        imageproc::drawing::draw_filled_circle_mut(
            &mut self.img,
            (cx, cy),
            radius,
            image::Rgba([color.red, color.green, color.blue, 255]),
        );
    }

    /// Relies on `image::ImageBuffer::into_raw`: the channels of every pixel,
    /// row by row, four bytes per pixel.
    #[verifier::external_body]
    pub(crate) fn into_raw(self) -> (r: Vec<u8>)
        ensures
            r@.len() == 4 * plate_size(self).0 * plate_size(self).1,
            forall|x: u32, y: u32|
                in_image(plate_size(self), x, y) ==> #[trigger] plate_pixels(self)[(x, y)]
                    == raw_pixel(r@, plate_size(self).0 as int, x as int, y as int),
    {
        self.img.into_raw()
    }
}

} // verus!
