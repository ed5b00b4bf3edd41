use vstd::prelude::*;
use crate::draw::canvas::Canvas;
use crate::draw::clipping::selector::clipper_deterministic;
use crate::draw::pixel::blend_deterministic;
use crate::types::ColorRGBA;

verus! {

/// `after` is the buffer `before` (of a canvas shaped like `canvas`) with
/// the colour `src` composited over pixel `(x, y)` by `blend`: nothing when
/// the pixel lies off the canvas, otherwise one of `blend`'s outcomes.
pub open spec fn plot_composited<B: Fn(ColorRGBA, ColorRGBA) -> ColorRGBA>(
    canvas: Canvas,
    before: Seq<ColorRGBA>,
    after: Seq<ColorRGBA>,
    x: int,
    y: int,
    src: ColorRGBA,
    blend: B,
) -> bool {
    let i = canvas.index_of(x, y);
    if !canvas.contains_point(x, y) {
        after == before
    } else {
        exists|r: ColorRGBA|
            call_ensures(blend, (src, before[i]), r) && after == before.update(i, r)
    }
}

/// `states` is a run of compositing over `plots`: `states[j + 1]` is
/// `states[j]` with plot `j` composited.
pub open spec fn composited_run<B: Fn(ColorRGBA, ColorRGBA) -> ColorRGBA>(
    canvas: Canvas,
    states: Seq<Seq<ColorRGBA>>,
    plots: Seq<(i32, i32, ColorRGBA)>,
    blend: B,
) -> bool {
    &&& states.len() == plots.len() + 1
    &&& forall|j: int|
        0 <= j < plots.len() ==> #[trigger] plot_composited(
            canvas,
            states[j],
            states[j + 1],
            plots[j].0 as int,
            plots[j].1 as int,
            plots[j].2,
            blend,
        )
}

/// `after` is `before` with every plot of `plots` composited, in order.
pub open spec fn plots_composited<B: Fn(ColorRGBA, ColorRGBA) -> ColorRGBA>(
    canvas: Canvas,
    before: Seq<ColorRGBA>,
    after: Seq<ColorRGBA>,
    plots: Seq<(i32, i32, ColorRGBA)>,
    blend: B,
) -> bool {
    exists|states: Seq<Seq<ColorRGBA>>|
        #[trigger] composited_run(canvas, states, plots, blend) && states[0] == before
            && states.last() == after
}

/// `after` is `before` with the anti-aliased line from `(x0, y0)` to
/// `(x1, y1)` drawn as `draw_line_antialiased` draws it: the segment is
/// clipped by an outcome of `parametric`; nothing is drawn when it is clipped
/// away, otherwise the plots are an outcome of `wu_plots` on the clipped
/// segment, composited in order.
pub open spec fn antialiased_drawn<
    P: Fn(&Canvas, i32, i32, i32, i32) -> Option<(i32, i32, i32, i32)>,
    W: Fn(i32, i32, i32, i32, ColorRGBA) -> Vec<(i32, i32, ColorRGBA)>,
    B: Fn(ColorRGBA, ColorRGBA) -> ColorRGBA,
>(
    canvas: Canvas,
    before: Seq<ColorRGBA>,
    after: Seq<ColorRGBA>,
    x0: i32,
    y0: i32,
    x1: i32,
    y1: i32,
    color: ColorRGBA,
    parametric: P,
    wu_plots: W,
    blend: B,
) -> bool {
    exists|r: Option<(i32, i32, i32, i32)>|
        #[trigger] call_ensures(parametric, (&canvas, x0, y0, x1, y1), r) && match r {
            None => after == before,
            Some((a, b, c, d)) => exists|plots: Vec<(i32, i32, ColorRGBA)>|
                #[trigger] call_ensures(wu_plots, (a, b, c, d, color), plots)
                    && plots_composited(canvas, before, after, plots@, blend),
        }
}

/// Compositing a single plot `(x, y, src)`: off the canvas nothing changes;
/// on it only the pixel at `y * width + x` changes, to a result of
/// `blend(src, old pixel)` with `src` exactly the plot's colour (its
/// coverage-weighted alpha as given).
pub proof fn lemma_composite_one_plot<B: Fn(ColorRGBA, ColorRGBA) -> ColorRGBA>(
    canvas: Canvas,
    before: Seq<ColorRGBA>,
    after: Seq<ColorRGBA>,
    x: i32,
    y: i32,
    src: ColorRGBA,
    blend: B,
)
    requires
        canvas.wf(),
        before.len() == canvas@.len(),
        plots_composited(canvas, before, after, seq![(x, y, src)], blend),
    ensures
        !canvas.contains_point(x as int, y as int) ==> after == before,
        canvas.contains_point(x as int, y as int) ==> {
            let k = y * canvas.width + x;
            &&& 0 <= k < before.len()
            &&& exists|v: ColorRGBA|
                call_ensures(blend, (src, before[k]), v) && after == before.update(k, v)
        },
{
    let plots = seq![(x, y, src)];
    let states = choose|states: Seq<Seq<ColorRGBA>>|
        #[trigger] composited_run(canvas, states, plots, blend) && states[0] == before
            && states.last() == after;
    assert(plot_composited(
        canvas,
        states[0],
        states[0int + 1],
        plots[0].0 as int,
        plots[0].1 as int,
        plots[0].2,
        blend,
    ));
    if canvas.contains_point(x as int, y as int) {
        canvas.lemma_index_in_buffer(x as int, y as int);
    }
}

/// Compositing a list of plots is compositing all but the last, then the
/// last one on its own.
pub proof fn lemma_plots_composited_split<B: Fn(ColorRGBA, ColorRGBA) -> ColorRGBA>(
    canvas: Canvas,
    before: Seq<ColorRGBA>,
    after: Seq<ColorRGBA>,
    plots: Seq<(i32, i32, ColorRGBA)>,
    blend: B,
)
    requires
        plots.len() > 0,
        plots_composited(canvas, before, after, plots, blend),
    ensures
        exists|mid: Seq<ColorRGBA>|
            plots_composited(canvas, before, mid, plots.drop_last(), blend) && plots_composited(
                canvas,
                mid,
                after,
                seq![plots.last()],
                blend,
            ),
{
    let states = choose|states: Seq<Seq<ColorRGBA>>|
        #[trigger] composited_run(canvas, states, plots, blend) && states[0] == before
            && states.last() == after;
    let n = plots.len() as int;
    let mid = states[n - 1];
    let first = states.take(n);
    let last = seq![states[n - 1], states[n]];
    assert forall|j: int| 0 <= j < plots.drop_last().len() implies #[trigger] plot_composited(
        canvas,
        first[j],
        first[j + 1],
        plots.drop_last()[j].0 as int,
        plots.drop_last()[j].1 as int,
        plots.drop_last()[j].2,
        blend,
    ) by {
        assert(plot_composited(
            canvas,
            states[j],
            states[j + 1],
            plots[j].0 as int,
            plots[j].1 as int,
            plots[j].2,
            blend,
        ));
    }
    assert(composited_run(canvas, first, plots.drop_last(), blend));
    assert(plot_composited(
        canvas,
        states[n - 1],
        states[n - 1 + 1],
        plots[n - 1].0 as int,
        plots[n - 1].1 as int,
        plots[n - 1].2,
        blend,
    ));
    assert(plot_composited(
        canvas,
        last[0],
        last[0int + 1],
        seq![plots.last()][0].0 as int,
        seq![plots.last()][0].1 as int,
        seq![plots.last()][0].2,
        blend,
    ));
    assert(composited_run(canvas, last, seq![plots.last()], blend));
    assert(first[0] == before && first.last() == mid);
    assert(last[0] == mid && last.last() == after);
    assert(plots_composited(canvas, before, mid, plots.drop_last(), blend));
    assert(plots_composited(canvas, mid, after, seq![plots.last()], blend));
}

/// An anti-aliased line, given the clipper's answer `clip` and the plots
/// `plots` that `wu_plots` gives for the clipped segment: nothing changes
/// when the segment is clipped away; otherwise the buffer is those very
/// plots composited in order.
pub proof fn lemma_antialiased_line_effect<
    P: Fn(&Canvas, i32, i32, i32, i32) -> Option<(i32, i32, i32, i32)>,
    W: Fn(i32, i32, i32, i32, ColorRGBA) -> Vec<(i32, i32, ColorRGBA)>,
    B: Fn(ColorRGBA, ColorRGBA) -> ColorRGBA,
>(
    canvas: Canvas,
    before: Seq<ColorRGBA>,
    after: Seq<ColorRGBA>,
    x0: i32,
    y0: i32,
    x1: i32,
    y1: i32,
    color: ColorRGBA,
    parametric: P,
    wu_plots: W,
    blend: B,
    clip: Option<(i32, i32, i32, i32)>,
    plots: Vec<(i32, i32, ColorRGBA)>,
)
    requires
        clipper_deterministic(parametric),
        plots_deterministic(wu_plots),
        call_ensures(parametric, (&canvas, x0, y0, x1, y1), clip),
        clip matches Some((a, b, c, d)) ==> call_ensures(wu_plots, (a, b, c, d, color), plots),
        antialiased_drawn(canvas, before, after, x0, y0, x1, y1, color, parametric, wu_plots, blend),
    ensures
        clip is None ==> after == before,
        clip is Some ==> plots_composited(canvas, before, after, plots@, blend),
{
    let r = choose|r: Option<(i32, i32, i32, i32)>|
        #[trigger] call_ensures(parametric, (&canvas, x0, y0, x1, y1), r) && match r {
            None => after == before,
            Some((a, b, c, d)) => exists|ps: Vec<(i32, i32, ColorRGBA)>|
                #[trigger] call_ensures(wu_plots, (a, b, c, d, color), ps)
                    && plots_composited(canvas, before, after, ps@, blend),
        };
    assert(r == clip);
    if let Some((a, b, c, d)) = clip {
        let ps = choose|ps: Vec<(i32, i32, ColorRGBA)>|
            #[trigger] call_ensures(wu_plots, (a, b, c, d, color), ps)
                && plots_composited(canvas, before, after, ps@, blend);
        assert(ps@ == plots@);
    }
}

/// `wu_plots` gives one list of plots for each segment and colour.
pub open spec fn plots_deterministic<
    W: Fn(i32, i32, i32, i32, ColorRGBA) -> Vec<(i32, i32, ColorRGBA)>,
>(wu_plots: W) -> bool {
    forall|x0: i32, y0: i32, x1: i32, y1: i32, c: ColorRGBA, p1: Vec<(i32, i32, ColorRGBA)>, p2: Vec<(i32, i32, ColorRGBA)>|
        #![trigger call_ensures(wu_plots, (x0, y0, x1, y1, c), p1), call_ensures(wu_plots, (x0, y0, x1, y1, c), p2)]
        call_ensures(wu_plots, (x0, y0, x1, y1, c), p1) && call_ensures(wu_plots, (x0, y0, x1, y1, c), p2)
            ==> p1@ == p2@
}

/// Two compositing runs over the same plots from the same start agree step by step.
proof fn lemma_composited_runs_agree<B: Fn(ColorRGBA, ColorRGBA) -> ColorRGBA>(
    canvas: Canvas,
    s1: Seq<Seq<ColorRGBA>>,
    s2: Seq<Seq<ColorRGBA>>,
    plots: Seq<(i32, i32, ColorRGBA)>,
    blend: B,
    j: int,
)
    requires
        blend_deterministic(blend),
        composited_run(canvas, s1, plots, blend),
        composited_run(canvas, s2, plots, blend),
        s1[0] == s2[0],
        0 <= j <= plots.len(),
    ensures
        s1[j] == s2[j],
    decreases j,
{
    if j > 0 {
        let k = j - 1;
        lemma_composited_runs_agree(canvas, s1, s2, plots, blend, k);
        assert(plot_composited(canvas, s1[k], s1[k + 1], plots[k].0 as int, plots[k].1 as int, plots[k].2, blend));
        assert(plot_composited(canvas, s2[k], s2[k + 1], plots[k].0 as int, plots[k].1 as int, plots[k].2, blend));
        let i = canvas.index_of(plots[k].0 as int, plots[k].1 as int);
        if canvas.contains_point(plots[k].0 as int, plots[k].1 as int) {
            let r1 = choose|r: ColorRGBA|
                call_ensures(blend, (plots[k].2, s1[k][i]), r) && s1[k + 1] == s1[k].update(i, r);
            let r2 = choose|r: ColorRGBA|
                call_ensures(blend, (plots[k].2, s2[k][i]), r) && s2[k + 1] == s2[k].update(i, r);
            assert(r1 == r2);
        }
    }
}

/// With a deterministic blend, compositing a list of plots has exactly one outcome.
pub proof fn lemma_plots_composited_unique<B: Fn(ColorRGBA, ColorRGBA) -> ColorRGBA>(
    canvas: Canvas,
    before: Seq<ColorRGBA>,
    after1: Seq<ColorRGBA>,
    after2: Seq<ColorRGBA>,
    plots: Seq<(i32, i32, ColorRGBA)>,
    blend: B,
)
    requires
        blend_deterministic(blend),
        plots_composited(canvas, before, after1, plots, blend),
        plots_composited(canvas, before, after2, plots, blend),
    ensures
        after1 == after2,
{
    let s1 = choose|states: Seq<Seq<ColorRGBA>>|
        #[trigger] composited_run(canvas, states, plots, blend) && states[0] == before
            && states.last() == after1;
    let s2 = choose|states: Seq<Seq<ColorRGBA>>|
        #[trigger] composited_run(canvas, states, plots, blend) && states[0] == before
            && states.last() == after2;
    lemma_composited_runs_agree(canvas, s1, s2, plots, blend, plots.len() as int);
}

/// With a deterministic clipper, plot list and blend, an anti-aliased line
/// has exactly one outcome.
pub proof fn lemma_antialiased_drawn_unique<
    P: Fn(&Canvas, i32, i32, i32, i32) -> Option<(i32, i32, i32, i32)>,
    W: Fn(i32, i32, i32, i32, ColorRGBA) -> Vec<(i32, i32, ColorRGBA)>,
    B: Fn(ColorRGBA, ColorRGBA) -> ColorRGBA,
>(
    canvas: Canvas,
    before: Seq<ColorRGBA>,
    after1: Seq<ColorRGBA>,
    after2: Seq<ColorRGBA>,
    x0: i32,
    y0: i32,
    x1: i32,
    y1: i32,
    color: ColorRGBA,
    parametric: P,
    wu_plots: W,
    blend: B,
)
    requires
        clipper_deterministic(parametric),
        plots_deterministic(wu_plots),
        blend_deterministic(blend),
        antialiased_drawn(canvas, before, after1, x0, y0, x1, y1, color, parametric, wu_plots, blend),
        antialiased_drawn(canvas, before, after2, x0, y0, x1, y1, color, parametric, wu_plots, blend),
    ensures
        after1 == after2,
{
    let r1 = choose|r: Option<(i32, i32, i32, i32)>|
        #[trigger] call_ensures(parametric, (&canvas, x0, y0, x1, y1), r) && match r {
            None => after1 == before,
            Some((a, b, c, d)) => exists|plots: Vec<(i32, i32, ColorRGBA)>|
                #[trigger] call_ensures(wu_plots, (a, b, c, d, color), plots)
                    && plots_composited(canvas, before, after1, plots@, blend),
        };
    let r2 = choose|r: Option<(i32, i32, i32, i32)>|
        #[trigger] call_ensures(parametric, (&canvas, x0, y0, x1, y1), r) && match r {
            None => after2 == before,
            Some((a, b, c, d)) => exists|plots: Vec<(i32, i32, ColorRGBA)>|
                #[trigger] call_ensures(wu_plots, (a, b, c, d, color), plots)
                    && plots_composited(canvas, before, after2, plots@, blend),
        };
    assert(r1 == r2);
    if let Some((a, b, c, d)) = r1 {
        let p1 = choose|plots: Vec<(i32, i32, ColorRGBA)>|
            #[trigger] call_ensures(wu_plots, (a, b, c, d, color), plots)
                && plots_composited(canvas, before, after1, plots@, blend);
        let p2 = choose|plots: Vec<(i32, i32, ColorRGBA)>|
            #[trigger] call_ensures(wu_plots, (a, b, c, d, color), plots)
                && plots_composited(canvas, before, after2, plots@, blend);
        assert(p1@ == p2@);
        lemma_plots_composited_unique(canvas, before, after1, after2, p1@, blend);
    }
}

impl Canvas {
    /// Draws an anti-aliased line with Xiaolin Wu's algorithm. The segment
    /// is first clipped to the canvas with `parametric` (Liang-Barsky); if
    /// any of it is left, `wu_plots` gives the plots of the clipped segment
    /// in drawing order (each a pixel and the stroke colour with its alpha
    /// scaled by the pixel's coverage), and every plot that lies on the
    /// canvas is composited over the pixel with `blend` (Porter-Duff "over").
    pub fn draw_line_antialiased<
        P: Fn(&Canvas, i32, i32, i32, i32) -> Option<(i32, i32, i32, i32)>,
        W: Fn(i32, i32, i32, i32, ColorRGBA) -> Vec<(i32, i32, ColorRGBA)>,
        B: Fn(ColorRGBA, ColorRGBA) -> ColorRGBA,
    >(
        &mut self,
        x0: i32,
        y0: i32,
        x1: i32,
        y1: i32,
        color: ColorRGBA,
        parametric: &P,
        wu_plots: W,
        blend: B,
    )
        requires
            old(self).wf(),
            forall|c: &Canvas, a: i32, b: i32, d: i32, e: i32|
                call_requires(*parametric, (c, a, b, d, e)),
            forall|a: i32, b: i32, d: i32, e: i32, k: ColorRGBA|
                call_requires(wu_plots, (a, b, d, e, k)),
            forall|s: ColorRGBA, d: ColorRGBA| call_requires(blend, (s, d)),
        ensures
            final(self).wf(),
            final(self).width == old(self).width,
            final(self).height == old(self).height,
            final(self).background_color == old(self).background_color,
            final(self).line_draw_algorithm == old(self).line_draw_algorithm,
            final(self).line_clip_algorithm == old(self).line_clip_algorithm,
            antialiased_drawn(
                *old(self),
                old(self)@,
                final(self)@,
                x0,
                y0,
                x1,
                y1,
                color,
                *parametric,
                wu_plots,
                blend,
            ),
    {
        let clipped = parametric(&*self, x0, y0, x1, y1);
        match clipped {
            None => {},
            Some((a, b, c, d)) => {
                let plots = wu_plots(a, b, c, d, color);
                self.composite_plots(&plots, &blend);
            },
        }
    }

    /// Composites each plot that lies on the canvas over its pixel, in order.
    fn composite_plots<B: Fn(ColorRGBA, ColorRGBA) -> ColorRGBA>(
        &mut self,
        plots: &Vec<(i32, i32, ColorRGBA)>,
        blend: &B,
    )
        requires
            old(self).wf(),
            forall|s: ColorRGBA, d: ColorRGBA| call_requires(*blend, (s, d)),
        ensures
            final(self).wf(),
            final(self).width == old(self).width,
            final(self).height == old(self).height,
            final(self).background_color == old(self).background_color,
            final(self).line_draw_algorithm == old(self).line_draw_algorithm,
            final(self).line_clip_algorithm == old(self).line_clip_algorithm,
            plots_composited(*old(self), old(self)@, final(self)@, plots@, *blend),
    {
        let n = plots.len();
        let ghost canvas = *old(self);
        let ghost mut states: Seq<Seq<ColorRGBA>> = seq![old(self)@];
        let mut i: usize = 0;
        while i < n
            invariant
                n == plots@.len(),
                i <= n,
                self.wf(),
                canvas == *old(self),
                self.width == old(self).width,
                self.height == old(self).height,
                self.background_color == old(self).background_color,
                self.line_draw_algorithm == old(self).line_draw_algorithm,
                self.line_clip_algorithm == old(self).line_clip_algorithm,
                forall|s: ColorRGBA, d: ColorRGBA| call_requires(*blend, (s, d)),
                states.len() == i + 1,
                states[0] == old(self)@,
                states[i as int] == self@,
                forall|j: int|
                    0 <= j < i ==> #[trigger] plot_composited(
                        canvas,
                        states[j],
                        states[j + 1],
                        plots@[j].0 as int,
                        plots@[j].1 as int,
                        plots@[j].2,
                        *blend,
                    ),
            decreases n - i,
        {
            let (x, y, src) = plots[i];
            if self.in_bounds(x, y) {
                proof {
                    self.lemma_index_in_buffer(x as int, y as int);
                }
                let idx = self.pixel_index(x, y);
                let dst = self.pixel_buffer[idx];
                let blended = blend(src, dst);
                self.pixel_buffer.set(idx, blended);
            }
            proof {
                let prev_states = states;
                states = states.push(self@);
                assert forall|j: int| 0 <= j < i + 1 implies #[trigger] plot_composited(
                    canvas,
                    states[j],
                    states[j + 1],
                    plots@[j].0 as int,
                    plots@[j].1 as int,
                    plots@[j].2,
                    *blend,
                ) by {
                    if j < i {
                        assert(states[j] == prev_states[j]);
                        assert(states[j + 1] == prev_states[j + 1]);
                    }
                }
            }
            i = i + 1;
        }
        assert(composited_run(canvas, states, plots@, *blend));
    }
}

} // verus!
