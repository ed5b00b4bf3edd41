use vstd::prelude::*;
use crate::draw::canvas::Canvas;
use crate::draw::clipping::selector::{clip_result, clipper_deterministic, lemma_clip_result_unique};
use crate::draw::pixel::blend_deterministic;
use crate::draw::line::aliased::{aliased_drawn, lemma_aliased_drawn_unique};
use crate::draw::line::antialiased::{
    antialiased_drawn, lemma_antialiased_drawn_unique, plots_deterministic,
};
use crate::types::{ColorRGBA, LineDrawAlgorithm};

verus! {

/// `after` is `before` with the segment drawn by the line algorithm
/// `algorithm` (each of which clips with `parametric` first).
pub open spec fn line_drawn<
    P: Fn(&Canvas, i32, i32, i32, i32) -> Option<(i32, i32, i32, i32)>,
    W: Fn(i32, i32, i32, i32, ColorRGBA) -> Vec<(i32, i32, ColorRGBA)>,
    B: Fn(ColorRGBA, ColorRGBA) -> ColorRGBA,
>(
    algorithm: LineDrawAlgorithm,
    canvas: Canvas,
    before: Seq<ColorRGBA>,
    after: Seq<ColorRGBA>,
    x0: i32,
    y0: i32,
    x1: i32,
    y1: i32,
    color: ColorRGBA,
    parametric: P,
    wu_plots: W,
    blend: B,
) -> bool {
    match algorithm {
        LineDrawAlgorithm::Aliased => aliased_drawn(
            canvas,
            before,
            after,
            x0,
            y0,
            x1,
            y1,
            color,
            parametric,
            blend,
        ),
        LineDrawAlgorithm::Antialiased => antialiased_drawn(
            canvas,
            before,
            after,
            x0,
            y0,
            x1,
            y1,
            color,
            parametric,
            wu_plots,
            blend,
        ),
    }
}

/// `after` is `before` with the segment drawn as `draw_line` draws it: `r`
/// is an outcome of `line_clip`; nothing is drawn for `None`, otherwise the
/// clipped segment is drawn by the canvas's line algorithm.
pub open spec fn clipped_line_drawn<
    P: Fn(&Canvas, i32, i32, i32, i32) -> Option<(i32, i32, i32, i32)>,
    R: Fn(&Canvas, i32, i32, i32, i32) -> Option<(i32, i32, i32, i32)>,
    W: Fn(i32, i32, i32, i32, ColorRGBA) -> Vec<(i32, i32, ColorRGBA)>,
    B: Fn(ColorRGBA, ColorRGBA) -> ColorRGBA,
>(
    canvas: Canvas,
    before: Seq<ColorRGBA>,
    after: Seq<ColorRGBA>,
    x0: i32,
    y0: i32,
    x1: i32,
    y1: i32,
    color: ColorRGBA,
    parametric: P,
    region_code: R,
    wu_plots: W,
    blend: B,
    r: Option<(i32, i32, i32, i32)>,
) -> bool {
    &&& clip_result(canvas, x0, y0, x1, y1, r, parametric, region_code)
    &&& match r {
        None => after == before,
        Some((a, b, c, d)) => line_drawn(
            canvas.line_draw_algorithm,
            canvas,
            before,
            after,
            a,
            b,
            c,
            d,
            color,
            parametric,
            wu_plots,
            blend,
        ),
    }
}

/// `draw_line` hands the selected drawer exactly the segment that
/// `line_clip` answered, endpoints in that order: nothing changes when the
/// segment is clipped away, otherwise the buffer afterwards is what the
/// aliased or anti-aliased drawer gives on the segment from `(a, b)` to `(c, d)`.
pub proof fn lemma_draw_line_draws_clipped_segment<
    P: Fn(&Canvas, i32, i32, i32, i32) -> Option<(i32, i32, i32, i32)>,
    R: Fn(&Canvas, i32, i32, i32, i32) -> Option<(i32, i32, i32, i32)>,
    W: Fn(i32, i32, i32, i32, ColorRGBA) -> Vec<(i32, i32, ColorRGBA)>,
    B: Fn(ColorRGBA, ColorRGBA) -> ColorRGBA,
>(
    canvas: Canvas,
    before: Seq<ColorRGBA>,
    after: Seq<ColorRGBA>,
    x0: i32,
    y0: i32,
    x1: i32,
    y1: i32,
    color: ColorRGBA,
    parametric: P,
    region_code: R,
    wu_plots: W,
    blend: B,
    r: Option<(i32, i32, i32, i32)>,
)
    requires
        clipped_line_drawn(
            canvas,
            before,
            after,
            x0,
            y0,
            x1,
            y1,
            color,
            parametric,
            region_code,
            wu_plots,
            blend,
            r,
        ),
    ensures
        clip_result(canvas, x0, y0, x1, y1, r, parametric, region_code),
        r is None ==> after == before,
        forall|a: i32, b: i32, c: i32, d: i32|
            r == Some((a, b, c, d)) && canvas.line_draw_algorithm is Aliased ==> #[trigger] aliased_drawn(
                canvas,
                before,
                after,
                a,
                b,
                c,
                d,
                color,
                parametric,
                blend,
            ),
        forall|a: i32, b: i32, c: i32, d: i32|
            r == Some((a, b, c, d)) && canvas.line_draw_algorithm is Antialiased
                ==> #[trigger] antialiased_drawn(
                canvas,
                before,
                after,
                a,
                b,
                c,
                d,
                color,
                parametric,
                wu_plots,
                blend,
            ),
{
}

/// With deterministic clippers, plot list and blend, `draw_line` has exactly
/// one outcome, and it is the buffer obtained by clipping with `line_clip`
/// and then drawing the clipped segment with the selected drawer on its own:
/// whatever buffer satisfies `draw_line`'s contract (`after1`) equals the one
/// from `line_clip`'s result `r2` followed by the drawer's contract (`after2`).
pub proof fn lemma_draw_line_is_clip_then_draw<
    P: Fn(&Canvas, i32, i32, i32, i32) -> Option<(i32, i32, i32, i32)>,
    R: Fn(&Canvas, i32, i32, i32, i32) -> Option<(i32, i32, i32, i32)>,
    W: Fn(i32, i32, i32, i32, ColorRGBA) -> Vec<(i32, i32, ColorRGBA)>,
    B: Fn(ColorRGBA, ColorRGBA) -> ColorRGBA,
>(
    canvas: Canvas,
    before: Seq<ColorRGBA>,
    after1: Seq<ColorRGBA>,
    after2: Seq<ColorRGBA>,
    x0: i32,
    y0: i32,
    x1: i32,
    y1: i32,
    color: ColorRGBA,
    parametric: P,
    region_code: R,
    wu_plots: W,
    blend: B,
    r1: Option<(i32, i32, i32, i32)>,
    r2: Option<(i32, i32, i32, i32)>,
)
    requires
        clipper_deterministic(parametric),
        clipper_deterministic(region_code),
        plots_deterministic(wu_plots),
        blend_deterministic(blend),
        clipped_line_drawn(
            canvas,
            before,
            after1,
            x0,
            y0,
            x1,
            y1,
            color,
            parametric,
            region_code,
            wu_plots,
            blend,
            r1,
        ),
        clip_result(canvas, x0, y0, x1, y1, r2, parametric, region_code),
        r2 is None ==> after2 == before,
        r2 matches Some((a, b, c, d)) ==> line_drawn(
            canvas.line_draw_algorithm,
            canvas,
            before,
            after2,
            a,
            b,
            c,
            d,
            color,
            parametric,
            wu_plots,
            blend,
        ),
    ensures
        r1 == r2,
        after1 == after2,
{
    lemma_clip_result_unique(canvas, x0, y0, x1, y1, r1, r2, parametric, region_code);
    if let Some((a, b, c, d)) = r1 {
        match canvas.line_draw_algorithm {
            LineDrawAlgorithm::Aliased => {
                lemma_aliased_drawn_unique(
                    canvas,
                    before,
                    after1,
                    after2,
                    a,
                    b,
                    c,
                    d,
                    color,
                    parametric,
                    blend,
                );
            },
            LineDrawAlgorithm::Antialiased => {
                lemma_antialiased_drawn_unique(
                    canvas,
                    before,
                    after1,
                    after2,
                    a,
                    b,
                    c,
                    d,
                    color,
                    parametric,
                    wu_plots,
                    blend,
                );
            },
        }
    }
}

impl Canvas {
    /// Clips the segment with the selected clipping algorithm (`line_clip`),
    /// then draws what is left with the selected line algorithm (which, like
    /// every line drawer, clips it with `parametric` before rasterising); a
    /// segment clipped away entirely draws nothing.
    pub fn draw_line<
        P: Fn(&Canvas, i32, i32, i32, i32) -> Option<(i32, i32, i32, i32)>,
        R: Fn(&Canvas, i32, i32, i32, i32) -> Option<(i32, i32, i32, i32)>,
        W: Fn(i32, i32, i32, i32, ColorRGBA) -> Vec<(i32, i32, ColorRGBA)>,
        B: Fn(ColorRGBA, ColorRGBA) -> ColorRGBA,
    >(
        &mut self,
        x0: i32,
        y0: i32,
        x1: i32,
        y1: i32,
        color: ColorRGBA,
        parametric: &P,
        region_code: &R,
        wu_plots: W,
        blend: B,
    )
        requires
            old(self).wf(),
            forall|c: &Canvas, a: i32, b: i32, d: i32, e: i32|
                call_requires(*parametric, (c, a, b, d, e)),
            forall|c: &Canvas, a: i32, b: i32, d: i32, e: i32|
                call_requires(*region_code, (c, a, b, d, e)),
            forall|a: i32, b: i32, d: i32, e: i32, k: ColorRGBA|
                call_requires(wu_plots, (a, b, d, e, k)),
            forall|s: ColorRGBA, d: ColorRGBA| call_requires(blend, (s, d)),
        ensures
            final(self).wf(),
            final(self).width == old(self).width,
            final(self).height == old(self).height,
            final(self).background_color == old(self).background_color,
            final(self).line_draw_algorithm == old(self).line_draw_algorithm,
            final(self).line_clip_algorithm == old(self).line_clip_algorithm,
            exists|r: Option<(i32, i32, i32, i32)>|
                clipped_line_drawn(
                    *old(self),
                    old(self)@,
                    final(self)@,
                    x0,
                    y0,
                    x1,
                    y1,
                    color,
                    *parametric,
                    *region_code,
                    wu_plots,
                    blend,
                    r,
                ),
    {
        let ghost before = *self;
        let clipped = self.line_clip(x0, y0, x1, y1, parametric, region_code);
        let (cx0, cy0, cx1, cy1) = match clipped {
            Some(seg) => seg,
            None => {
                assert(clipped_line_drawn(
                    before,
                    before@,
                    self@,
                    x0,
                    y0,
                    x1,
                    y1,
                    color,
                    *parametric,
                    *region_code,
                    wu_plots,
                    blend,
                    clipped,
                ));
                return;
            },
        };
        match self.line_draw_algorithm {
            LineDrawAlgorithm::Aliased => self.draw_line_aliased(
                cx0,
                cy0,
                cx1,
                cy1,
                color,
                parametric,
                blend,
            ),
            LineDrawAlgorithm::Antialiased => self.draw_line_antialiased(
                cx0,
                cy0,
                cx1,
                cy1,
                color,
                parametric,
                wu_plots,
                blend,
            ),
        }
        assert(clipped_line_drawn(
            before,
            before@,
            self@,
            x0,
            y0,
            x1,
            y1,
            color,
            *parametric,
            *region_code,
            wu_plots,
            blend,
            clipped,
        ));
    }

    /// Chooses how lines are rasterised.
    pub fn set_line_draw_algorithm(&mut self, algorithm: LineDrawAlgorithm)
        ensures
            final(self).line_draw_algorithm == algorithm,
            final(self)@ == old(self)@,
            final(self).width == old(self).width,
            final(self).height == old(self).height,
            final(self).background_color == old(self).background_color,
            final(self).line_clip_algorithm == old(self).line_clip_algorithm,
    {
        self.line_draw_algorithm = algorithm;
    }
}

} // verus!
