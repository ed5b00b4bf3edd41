use vstd::prelude::*;
use crate::draw::canvas::{filled, Canvas};
use crate::types::ColorRGBA;

verus! {

/// `after` is the pixel buffer `before` of a canvas shaped like `canvas`
/// with `color` drawn at `(x, y)` as `draw_pixel` draws it: nothing off the
/// canvas, nothing for a transparent colour, an overwrite for an opaque one,
/// otherwise an outcome of `blend` over the current pixel.
pub open spec fn pixel_drawn<F: Fn(ColorRGBA, ColorRGBA) -> ColorRGBA>(
    canvas: Canvas,
    before: Seq<ColorRGBA>,
    after: Seq<ColorRGBA>,
    x: int,
    y: int,
    color: ColorRGBA,
    blend: F,
) -> bool {
    let i = canvas.index_of(x, y);
    if !canvas.contains_point(x, y) || color % 256 == 0 {
        after == before
    } else if color % 256 == 255 {
        after == before.update(i, color)
    } else {
        exists|r: ColorRGBA|
            call_ensures(blend, (color, before[i]), r) && after == before.update(i, r)
    }
}

/// What drawing one pixel does, read off the colour's alpha byte `AA`:
/// a point off the canvas changes nothing; on the canvas only the pixel at
/// `y * width + x` can change, and it is left as it was for `AA = 0x00`,
/// becomes `color` for `AA = 0xFF`, and for every other alpha becomes a
/// result of `blend(color, old pixel)`.
pub proof fn lemma_draw_pixel_effect<F: Fn(ColorRGBA, ColorRGBA) -> ColorRGBA>(
    canvas: Canvas,
    before: Seq<ColorRGBA>,
    after: Seq<ColorRGBA>,
    x: int,
    y: int,
    color: ColorRGBA,
    blend: F,
)
    requires
        canvas.wf(),
        before.len() == canvas@.len(),
        pixel_drawn(canvas, before, after, x, y, color, blend),
    ensures
        after.len() == before.len(),
        !canvas.contains_point(x, y) ==> after == before,
        canvas.contains_point(x, y) ==> {
            let k = y * canvas.width + x;
            &&& 0 <= k < before.len()
            &&& forall|j: int| 0 <= j < before.len() && j != k ==> after[j] == before[j]
            &&& (color & 0xFF) == 0 ==> after == before
            &&& (color & 0xFF) == 0xFF ==> after[k] == color
            &&& (color & 0xFF) != 0 && (color & 0xFF) != 0xFF ==> exists|v: ColorRGBA|
                call_ensures(blend, (color, before[k]), v) && after[k] == v
        },
{
    assert((color & 0xFF) == color % 256) by (bit_vector);
    if canvas.contains_point(x, y) {
        canvas.lemma_index_in_buffer(x, y);
        let i = canvas.index_of(x, y);
        if color % 256 != 0 && color % 256 != 255 {
            let r = choose|r: ColorRGBA|
                call_ensures(blend, (color, before[i]), r) && after == before.update(i, r);
            assert(call_ensures(blend, (color, before[i]), r) && after[i] == r);
        }
    }
}

/// `blend` gives one result for each pair of colours.
pub open spec fn blend_deterministic<F: Fn(ColorRGBA, ColorRGBA) -> ColorRGBA>(blend: F) -> bool {
    forall|s: ColorRGBA, d: ColorRGBA, r1: ColorRGBA, r2: ColorRGBA|
        #![trigger call_ensures(blend, (s, d), r1), call_ensures(blend, (s, d), r2)]
        call_ensures(blend, (s, d), r1) && call_ensures(blend, (s, d), r2) ==> r1 == r2
}

/// With a deterministic blend, drawing a pixel has exactly one outcome.
pub proof fn lemma_pixel_drawn_unique<F: Fn(ColorRGBA, ColorRGBA) -> ColorRGBA>(
    canvas: Canvas,
    before: Seq<ColorRGBA>,
    after1: Seq<ColorRGBA>,
    after2: Seq<ColorRGBA>,
    x: int,
    y: int,
    color: ColorRGBA,
    blend: F,
)
    requires
        blend_deterministic(blend),
        pixel_drawn(canvas, before, after1, x, y, color, blend),
        pixel_drawn(canvas, before, after2, x, y, color, blend),
    ensures
        after1 == after2,
{
    let i = canvas.index_of(x, y);
    if canvas.contains_point(x, y) && color % 256 != 0 && color % 256 != 255 {
        let r1 = choose|r: ColorRGBA|
            call_ensures(blend, (color, before[i]), r) && after1 == before.update(i, r);
        let r2 = choose|r: ColorRGBA|
            call_ensures(blend, (color, before[i]), r) && after2 == before.update(i, r);
        assert(r1 == r2);
    }
}

impl Canvas {
    /// Row-major position of pixel `(x, y)` in the buffer.
    pub open spec fn index_of(&self, x: int, y: int) -> int {
        y * self.width + x
    }

    /// The colour of pixel `(x, y)`.
    pub open spec fn pixel_at(&self, x: int, y: int) -> ColorRGBA {
        self@[self.index_of(x, y)]
    }

    /// Every pixel of a well-formed canvas has a position inside the buffer
    /// (so `get_pixel` and `pixel_index` can be called on any point).
    pub proof fn lemma_index_in_buffer(&self, x: int, y: int)
        requires
            self.wf(),
            self.contains_point(x, y),
        ensures
            0 <= self.index_of(x, y) < self@.len(),
    {
        let w = self.width as int;
        let h = self.height as int;
        assert(0 <= y * w + x < w * h) by (nonlinear_arith)
            requires
                0 <= x < w,
                0 <= y < h,
        ;
    }

    /// The layout is row-major and one-to-one: distinct pixels have distinct
    /// positions in the buffer.
    pub proof fn lemma_index_unique(&self, x0: int, y0: int, x1: int, y1: int)
        requires
            self.contains_point(x0, y0),
            self.contains_point(x1, y1),
            self.index_of(x0, y0) == self.index_of(x1, y1),
        ensures
            x0 == x1,
            y0 == y1,
    {
        let w = self.width as int;
        assert(x0 == x1 && y0 == y1) by (nonlinear_arith)
            requires
                0 <= x0 < w,
                0 <= x1 < w,
                0 <= y0,
                0 <= y1,
                y0 * w + x0 == y1 * w + x1,
        ;
    }

    /// A canvas filled with one colour (as `new`, `clear` and `resize` leave
    /// it) reads back that colour at every pixel.
    pub proof fn lemma_filled_reads_back(&self, color: ColorRGBA, x: int, y: int)
        requires
            self.wf(),
            self@ == filled(self@.len(), color),
            self.contains_point(x, y),
        ensures
            self.pixel_at(x, y) == color,
    {
        self.lemma_index_in_buffer(x, y);
    }

    /// Computes the flat buffer index `y * width + x` of pixel `(x, y)`,
    /// which must lie in the canvas; on a well-formed canvas the index is
    /// inside the buffer.
    pub fn pixel_index(&self, x: i32, y: i32) -> (i: usize)
        requires
            self.contains_point(x as int, y as int),
            self.index_of(x as int, y as int) <= usize::MAX,
        ensures
            i == self.index_of(x as int, y as int),
            self.wf() ==> i < self@.len(),
    {
        proof {
            if self.wf() {
                self.lemma_index_in_buffer(x as int, y as int);
            }
            let w = self.width as int;
            assert(0 <= y * w <= y * w + x) by (nonlinear_arith)
                requires
                    0 <= x,
                    0 <= y,
                    0 <= w,
            ;
        }
        y as usize * self.width as usize + x as usize
    }

    /// Writes `color` onto pixel `(x, y)` with "over" compositing, `blend`
    /// giving the composite of a colour over the pixel's current colour.
    ///
    /// Out-of-bounds coordinates are silently ignored. A fully opaque colour
    /// (`AA = 0xFF`) is a plain overwrite; a fully transparent one
    /// (`AA = 0x00`) leaves the pixel unchanged; any other alpha stores what
    /// `blend(color, current)` returns.
    pub fn draw_pixel<F: Fn(ColorRGBA, ColorRGBA) -> ColorRGBA>(
        &mut self,
        x: i32,
        y: i32,
        color: ColorRGBA,
        blend: &F,
    )
        requires
            old(self).wf(),
            forall|s: ColorRGBA, d: ColorRGBA| call_requires(*blend, (s, d)),
        ensures
            final(self).wf(),
            final(self).width == old(self).width,
            final(self).height == old(self).height,
            final(self).background_color == old(self).background_color,
            final(self).line_draw_algorithm == old(self).line_draw_algorithm,
            final(self).line_clip_algorithm == old(self).line_clip_algorithm,
            pixel_drawn(*old(self), old(self)@, final(self)@, x as int, y as int, color, *blend),
    {
        if !self.in_bounds(x, y) {
            return;
        }
        proof {
            self.lemma_index_in_buffer(x as int, y as int);
        }
        let idx = self.pixel_index(x, y);
        let alpha = color % 256;
        if alpha == 255 {
            self.pixel_buffer.set(idx, color);
        } else if alpha == 0 {
        } else {
            let blended = blend(color, self.pixel_buffer[idx]);
            self.pixel_buffer.set(idx, blended);
        }
    }

    /// Returns the colour of pixel `(x, y)`, or `None` if it lies outside the canvas.
    pub fn get_pixel(&self, x: i32, y: i32) -> (c: Option<ColorRGBA>)
        requires
            self.contains_point(x as int, y as int) ==> self.index_of(x as int, y as int)
                < self@.len(),
        ensures
            c == (if self.contains_point(x as int, y as int) {
                Some(self.pixel_at(x as int, y as int))
            } else {
                None
            }),
    {
        if !self.in_bounds(x, y) {
            return None;
        }
        let n = self.pixel_buffer.len();
        assert(self.index_of(x as int, y as int) < n);
        Some(self.pixel_buffer[self.pixel_index(x, y)])
    }
}

} // verus!
