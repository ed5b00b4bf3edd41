use vstd::prelude::*;
use crate::draw::canvas::{filled, Canvas};
use crate::types::ColorRGBA;

verus! {

impl Canvas {
    /// Returns a read-only slice of the raw pixel buffer, row-major:
    /// pixel `(x, y)` is at index `y * width + x`.
    pub fn pixels(&self) -> (s: &[ColorRGBA])
        ensures
            s@ == self@,
    {
        self.pixel_buffer.as_slice()
    }

    /// Returns a mutable slice of the raw pixel buffer; what is written
    /// through it is what the canvas holds afterwards.
    pub fn pixels_mut(&mut self) -> (s: &mut [ColorRGBA])
        ensures
            s@ == old(self)@,
            final(self)@ == final(s)@,
            final(self).width == old(self).width,
            final(self).height == old(self).height,
            final(self).background_color == old(self).background_color,
            final(self).line_draw_algorithm == old(self).line_draw_algorithm,
            final(self).line_clip_algorithm == old(self).line_clip_algorithm,
    {
        self.pixel_buffer.as_mut_slice()
    }

    /// Fills the entire buffer with `color`, replacing every pixel (no blending).
    pub fn clear(&mut self, color: ColorRGBA)
        ensures
            final(self)@ == filled(old(self)@.len(), color),
            final(self).width == old(self).width,
            final(self).height == old(self).height,
            final(self).background_color == old(self).background_color,
            final(self).line_draw_algorithm == old(self).line_draw_algorithm,
            final(self).line_clip_algorithm == old(self).line_clip_algorithm,
    {
        let n = self.pixel_buffer.len();
        let mut i: usize = 0;
        while i < n
            invariant
                n == old(self)@.len(),
                self@.len() == n,
                i <= n,
                forall|j: int| 0 <= j < i ==> self@[j] == color,
                self.width == old(self).width,
                self.height == old(self).height,
                self.background_color == old(self).background_color,
                self.line_draw_algorithm == old(self).line_draw_algorithm,
                self.line_clip_algorithm == old(self).line_clip_algorithm,
            decreases n - i,
        {
            self.pixel_buffer.set(i, color);
            i = i + 1;
        }
        assert(self@ =~= filled(n as nat, color));
    }

    /// Resizes the canvas to `new_width × new_height`, every pixel set to
    /// `background`; all existing pixel data is discarded.
    pub fn resize(&mut self, new_width: u32, new_height: u32, background: ColorRGBA)
        requires
            new_width * new_height <= u32::MAX,
        ensures
            final(self).wf(),
            final(self).width == new_width,
            final(self).height == new_height,
            final(self)@ == filled((new_width * new_height) as nat, background),
            final(self).background_color == old(self).background_color,
            final(self).line_draw_algorithm == old(self).line_draw_algorithm,
            final(self).line_clip_algorithm == old(self).line_clip_algorithm,
    {
        self.width = new_width;
        self.height = new_height;

        let new_len = (new_width * new_height) as usize;

        self.pixel_buffer.clear();
        self.pixel_buffer.resize(new_len, background);
        assert(self@ =~= filled(new_len as nat, background));
    }
}

} // verus!
