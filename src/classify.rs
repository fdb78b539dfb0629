//! The opacity mask of the hidden text and the classification of disks by it.
use vstd::prelude::*;
use crate::geometry::Point2D;
use crate::circle::{Circle, IshiharaColor, inside_canvas};

verus! {

/// A grid of opacity values, row by row; a pixel of opacity zero lies inside
/// the hidden silhouette.
#[derive(Debug)]
pub struct Mask {
    pub width: u32,
    pub height: u32,
    pub opacity: Vec<u8>,
}

impl Mask {
    /// The grid holds one opacity per pixel.
    pub open spec fn wf(&self) -> bool {
        self.opacity@.len() == self.width * self.height
    }

    /// A mask of `width` by `height` pixels from its opacities, row by row;
    /// `None` when their number is not `width * height`.
    pub fn new(width: u32, height: u32, opacity: Vec<u8>) -> (r: Option<Mask>)
        ensures
            r is Some <==> opacity@.len() == width * height,
            r matches Some(m) ==> m.wf() && m.width == width && m.height == height && m.opacity@
                == opacity@,
    {
        let w: u64 = width as u64;
        let h: u64 = height as u64;
        assert(w * h <= u64::MAX) by (nonlinear_arith)
            requires
                w <= u32::MAX,
                h <= u32::MAX,
        ;
        if (opacity.len() as u64) == w * h {
            Some(Mask { width, height, opacity })
        } else {
            None
        }
    }

    /// The opacity at `(x, y)`.
    pub fn opacity_at(&self, x: u32, y: u32) -> (r: u8)
        requires
            self.wf(),
            x < self.width,
            y < self.height,
        ensures
            r == opacity_of(*self, x as int, y as int),
    {
        let n: usize = self.opacity.len();
        proof {
            lemma_index_in_grid(x as int, y as int, self.width as int, self.height as int);
            assert((y as int) * (self.width as int) <= (y as int) * (self.width as int) + x);
        }
        let i: usize = (y as usize) * (self.width as usize) + (x as usize);
        self.opacity[i]
    }
}

/// A pixel `(x, y)` of a `width` by `height` grid has its row-major index in
/// the grid.
pub proof fn lemma_index_in_grid(x: int, y: int, width: int, height: int)
    requires
        0 <= x < width,
        0 <= y < height,
    ensures
        0 <= y * width + x < width * height,
{
    assert(0 <= y * width + x < width * height) by (nonlinear_arith)
        requires
            0 <= x < width,
            0 <= y < height,
    ;
}

/// The opacity of the mask at `(x, y)`.
pub open spec fn opacity_of(m: Mask, x: int, y: int) -> u8 {
    m.opacity@[y * m.width + x]
}

/// The side of the silhouette that the pixel at `p` lies on.
pub open spec fn side_at(m: Mask, p: Point2D) -> IshiharaColor {
    if opacity_of(m, p.x as int, p.y as int) == 0 {
        IshiharaColor::Inside
    } else {
        IshiharaColor::Outside
    }
}

/// `c` labelled by the mask pixel under its center.
pub open spec fn classified_circle(c: Circle, m: Mask) -> Circle {
    Circle { ishihara_color: Some(side_at(m, c.center)), ..c }
}

/// Each disk of `s` labelled by the mask pixel under its center.
pub open spec fn classified(s: Seq<Circle>, m: Mask) -> Seq<Circle> {
    s.map_values(|c: Circle| classified_circle(c, m))
}

/// Every center of `s` lies on the mask.
pub open spec fn centers_on_mask(s: Seq<Circle>, m: Mask) -> bool {
    forall|i: int|
        0 <= i < s.len() ==> inside_canvas(#[trigger] s[i].center, m.width as int, m.height as int)
}

impl Circle {
    /// Labels the disk by the single mask pixel under its center.
    pub fn assign_color(&mut self, mask: &Mask)
        requires
            mask.wf(),
            inside_canvas(old(self).center, mask.width as int, mask.height as int),
        ensures
            *final(self) == classified_circle(*old(self), *mask),
    {
        let o = mask.opacity_at(self.center.x as u32, self.center.y as u32);
        if o == 0 {
            self.ishihara_color = Some(IshiharaColor::Inside);
        } else {
            self.ishihara_color = Some(IshiharaColor::Outside);
        }
    }
}

/// Labels every disk of `circles` by the mask pixel under its center.
pub fn classify(circles: &[Circle], mask: &Mask) -> (r: Vec<Circle>)
    requires
        mask.wf(),
        centers_on_mask(circles@, *mask),
    ensures
        r@ == classified(circles@, *mask),
{
    let mut out: Vec<Circle> = Vec::new();
    let mut i: usize = 0;
    while i < circles.len()
        invariant
            i <= circles@.len(),
            mask.wf(),
            centers_on_mask(circles@, *mask),
            out@ == classified(circles@.take(i as int), *mask),
        decreases circles@.len() - i,
    {
        let mut c = circles[i];
        assert(inside_canvas(circles@[i as int].center, mask.width as int, mask.height as int));
        c.assign_color(mask);
        out.push(c);
        assert(circles@.take(i + 1) =~= circles@.take(i as int).push(circles@[i as int]));
        assert(classified(circles@.take(i + 1), *mask) =~= classified(circles@.take(i as int), *mask).push(c));
        i = i + 1;
    }
    assert(circles@.take(i as int) =~= circles@);
    out
}

/// Classifying a second time with the same mask changes no label.
pub proof fn lemma_classify_idempotent(s: Seq<Circle>, m: Mask)
    ensures
        classified(classified(s, m), m) == classified(s, m),
{
    assert(classified(classified(s, m), m) =~= classified(s, m));
}

/// Under a mask of opacity zero throughout, every disk is labelled `Inside`.
pub proof fn lemma_transparent_mask_all_inside(s: Seq<Circle>, m: Mask)
    requires
        m.wf(),
        centers_on_mask(s, m),
        forall|k: int| 0 <= k < m.opacity@.len() ==> #[trigger] m.opacity@[k] == 0,
    ensures
        forall|i: int|
            0 <= i < s.len() ==> #[trigger] classified(s, m)[i].ishihara_color == Some(
                IshiharaColor::Inside,
            ),
{
    assert forall|i: int| 0 <= i < s.len() implies #[trigger] classified(s, m)[i].ishihara_color
        == Some(IshiharaColor::Inside) by {
        let p = s[i].center;
        assert(inside_canvas(p, m.width as int, m.height as int));
        lemma_index_in_grid(p.x as int, p.y as int, m.width as int, m.height as int);
    }
}

/// Under a mask of non-zero opacity throughout, every disk is labelled `Outside`.
pub proof fn lemma_opaque_mask_all_outside(s: Seq<Circle>, m: Mask)
    requires
        m.wf(),
        centers_on_mask(s, m),
        forall|k: int| 0 <= k < m.opacity@.len() ==> #[trigger] m.opacity@[k] != 0,
    ensures
        forall|i: int|
            0 <= i < s.len() ==> #[trigger] classified(s, m)[i].ishihara_color == Some(
                IshiharaColor::Outside,
            ),
{
    assert forall|i: int| 0 <= i < s.len() implies #[trigger] classified(s, m)[i].ishihara_color
        == Some(IshiharaColor::Outside) by {
        let p = s[i].center;
        assert(inside_canvas(p, m.width as int, m.height as int));
        lemma_index_in_grid(p.x as int, p.y as int, m.width as int, m.height as int);
    }
}

} // verus!
