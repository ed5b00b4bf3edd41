use vstd::prelude::*;
use crate::draw::canvas::Canvas;
use crate::types::LineClipAlgorithm;

verus! {

/// `r` is what `line_clip` may return for the segment on `canvas`: the
/// segment itself without clipping, otherwise an outcome of the selected clipper.
pub open spec fn clip_result<
    P: Fn(&Canvas, i32, i32, i32, i32) -> Option<(i32, i32, i32, i32)>,
    R: Fn(&Canvas, i32, i32, i32, i32) -> Option<(i32, i32, i32, i32)>,
>(
    canvas: Canvas,
    x0: i32,
    y0: i32,
    x1: i32,
    y1: i32,
    r: Option<(i32, i32, i32, i32)>,
    parametric: P,
    region_code: R,
) -> bool {
    match canvas.line_clip_algorithm {
        LineClipAlgorithm::NoClip => r == Some((x0, y0, x1, y1)),
        LineClipAlgorithm::Parametric => call_ensures(parametric, (&canvas, x0, y0, x1, y1), r),
        LineClipAlgorithm::RegionCode => call_ensures(region_code, (&canvas, x0, y0, x1, y1), r),
    }
}

/// `line_clip` answers with exactly what the selected clipper answers for the
/// same canvas and the same segment, endpoints in the order given, and with
/// no clipper it hands the segment back as it is; with a deterministic
/// clipper the answer is therefore the clipper's own.
pub proof fn lemma_line_clip_is_selected_clipper<
    P: Fn(&Canvas, i32, i32, i32, i32) -> Option<(i32, i32, i32, i32)>,
    R: Fn(&Canvas, i32, i32, i32, i32) -> Option<(i32, i32, i32, i32)>,
>(
    canvas: Canvas,
    x0: i32,
    y0: i32,
    x1: i32,
    y1: i32,
    r: Option<(i32, i32, i32, i32)>,
    expected: Option<(i32, i32, i32, i32)>,
    parametric: P,
    region_code: R,
)
    requires
        clip_result(canvas, x0, y0, x1, y1, r, parametric, region_code),
    ensures
        canvas.line_clip_algorithm is NoClip ==> r == Some((x0, y0, x1, y1)),
        canvas.line_clip_algorithm is Parametric ==> call_ensures(
            parametric,
            (&canvas, x0, y0, x1, y1),
            r,
        ),
        canvas.line_clip_algorithm is RegionCode ==> call_ensures(
            region_code,
            (&canvas, x0, y0, x1, y1),
            r,
        ),
        canvas.line_clip_algorithm is Parametric && clipper_deterministic(parametric)
            && call_ensures(parametric, (&canvas, x0, y0, x1, y1), expected) ==> r == expected,
        canvas.line_clip_algorithm is RegionCode && clipper_deterministic(region_code)
            && call_ensures(region_code, (&canvas, x0, y0, x1, y1), expected) ==> r == expected,
{
}

/// `clipper` gives one result for each canvas and segment.
pub open spec fn clipper_deterministic<
    P: Fn(&Canvas, i32, i32, i32, i32) -> Option<(i32, i32, i32, i32)>,
>(clipper: P) -> bool {
    forall|c: &Canvas, x0: i32, y0: i32, x1: i32, y1: i32, r1: Option<(i32, i32, i32, i32)>, r2: Option<(i32, i32, i32, i32)>|
        #![trigger call_ensures(clipper, (c, x0, y0, x1, y1), r1), call_ensures(clipper, (c, x0, y0, x1, y1), r2)]
        call_ensures(clipper, (c, x0, y0, x1, y1), r1) && call_ensures(clipper, (c, x0, y0, x1, y1), r2)
            ==> r1 == r2
}

/// With deterministic clippers, `line_clip` has exactly one outcome.
pub proof fn lemma_clip_result_unique<
    P: Fn(&Canvas, i32, i32, i32, i32) -> Option<(i32, i32, i32, i32)>,
    R: Fn(&Canvas, i32, i32, i32, i32) -> Option<(i32, i32, i32, i32)>,
>(
    canvas: Canvas,
    x0: i32,
    y0: i32,
    x1: i32,
    y1: i32,
    r1: Option<(i32, i32, i32, i32)>,
    r2: Option<(i32, i32, i32, i32)>,
    parametric: P,
    region_code: R,
)
    requires
        clipper_deterministic(parametric),
        clipper_deterministic(region_code),
        clip_result(canvas, x0, y0, x1, y1, r1, parametric, region_code),
        clip_result(canvas, x0, y0, x1, y1, r2, parametric, region_code),
    ensures
        r1 == r2,
{
}

impl Canvas {
    /// Clips the segment with the selected algorithm: unchanged for `NoClip`,
    /// through `parametric` (Liang-Barsky) or `region_code` (Cohen-Sutherland)
    /// otherwise. `None` means no part of the segment is visible.
    pub fn line_clip<
        P: Fn(&Canvas, i32, i32, i32, i32) -> Option<(i32, i32, i32, i32)>,
        R: Fn(&Canvas, i32, i32, i32, i32) -> Option<(i32, i32, i32, i32)>,
    >(&self, x0: i32, y0: i32, x1: i32, y1: i32, parametric: &P, region_code: &R) -> (r: Option<
        (i32, i32, i32, i32),
    >)
        requires
            self.line_clip_algorithm == LineClipAlgorithm::Parametric ==> call_requires(
                *parametric,
                (self, x0, y0, x1, y1),
            ),
            self.line_clip_algorithm == LineClipAlgorithm::RegionCode ==> call_requires(
                *region_code,
                (self, x0, y0, x1, y1),
            ),
        ensures
            clip_result(*self, x0, y0, x1, y1, r, *parametric, *region_code),
    {
        match self.line_clip_algorithm {
            LineClipAlgorithm::NoClip => Some((x0, y0, x1, y1)),
            LineClipAlgorithm::Parametric => parametric(self, x0, y0, x1, y1),
            LineClipAlgorithm::RegionCode => region_code(self, x0, y0, x1, y1),
        }
    }

    /// Chooses how lines are clipped before they are drawn.
    pub fn set_line_clip_algorithm(&mut self, algorithm: LineClipAlgorithm)
        ensures
            final(self).line_clip_algorithm == algorithm,
            final(self)@ == old(self)@,
            final(self).width == old(self).width,
            final(self).height == old(self).height,
            final(self).background_color == old(self).background_color,
            final(self).line_draw_algorithm == old(self).line_draw_algorithm,
    {
        self.line_clip_algorithm = algorithm;
    }
}

} // verus!
