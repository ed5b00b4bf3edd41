use vstd::prelude::*;
use crate::types::{ColorRGBA, LineClipAlgorithm, LineDrawAlgorithm};

verus! {

/// Background used when `Canvas::new` is given none: opaque black.
pub const DEFAULT_BACKGROUND: ColorRGBA = 0x000000FF;

/// A `width × height` grid of `0xRRGGBBAA` pixels stored row-major:
/// pixel `(x, y)` is at index `y * width + x`.
pub struct Canvas {
    pub pixel_buffer: Vec<ColorRGBA>,
    pub line_draw_algorithm: LineDrawAlgorithm,
    pub line_clip_algorithm: LineClipAlgorithm,
    pub background_color: ColorRGBA,
    pub width: u32,
    pub height: u32,
}

impl View for Canvas {
    type V = Seq<ColorRGBA>;

    /// The pixels, row-major.
    open spec fn view(&self) -> Seq<ColorRGBA> {
        self.pixel_buffer@
    }
}

/// The colour that `new` fills the canvas with.
pub open spec fn background_or_default(background_color: Option<ColorRGBA>) -> ColorRGBA {
    match background_color {
        Some(v) => v,
        None => DEFAULT_BACKGROUND,
    }
}

/// `n` pixels of colour `color`.
pub open spec fn filled(n: nat, color: ColorRGBA) -> Seq<ColorRGBA> {
    Seq::new(n, |i: int| color)
}

impl Canvas {
    /// The buffer holds exactly `width * height` pixels, a count that fits in `u32`.
    pub open spec fn wf(&self) -> bool {
        &&& self.width * self.height <= u32::MAX
        &&& self@.len() == self.width * self.height
    }

    /// Creates a `width × height` canvas filled with `background_color`
    /// (opaque black when none is given), with the default line algorithms.
    pub fn new(width: u32, height: u32, background_color: Option<ColorRGBA>) -> (c: Self)
        requires
            width * height <= u32::MAX,
        ensures
            c.wf(),
            c.width == width,
            c.height == height,
            c.background_color == background_or_default(background_color),
            c.line_draw_algorithm == LineDrawAlgorithm::Aliased,
            c.line_clip_algorithm == LineClipAlgorithm::Parametric,
            c@ == filled((width * height) as nat, background_or_default(background_color)),
    {
        let background_color = match background_color {
            Some(v) => v,
            None => DEFAULT_BACKGROUND,
        };
        let pixel_buffer = vec![background_color; (width * height) as usize];
        assert(pixel_buffer@ =~= filled((width * height) as nat, background_color));
        Self {
            pixel_buffer,
            line_draw_algorithm: LineDrawAlgorithm::default(),
            line_clip_algorithm: LineClipAlgorithm::default(),
            background_color,
            width,
            height,
        }
    }

    /// Returns the total number of pixels in the buffer (`width * height`).
    pub fn len(&self) -> (n: usize)
        ensures
            n == self@.len(),
            self.wf() ==> n == self.width * self.height,
    {
        self.pixel_buffer.len()
    }

    /// Returns `true` if the buffer contains no pixels.
    pub fn is_empty(&self) -> (b: bool)
        ensures
            b == (self@.len() == 0),
            self.wf() ==> (b <==> (self.width == 0 || self.height == 0)),
    {
        proof {
            let w = self.width as int;
            let h = self.height as int;
            assert((w * h == 0) <==> (w == 0 || h == 0)) by (nonlinear_arith)
                requires
                    w >= 0,
                    h >= 0,
            ;
        }
        self.pixel_buffer.is_empty()
    }
}

} // verus!
