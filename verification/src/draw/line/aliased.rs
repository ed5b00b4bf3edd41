use vstd::prelude::*;
use vstd::arithmetic::div_mod::lemma_fundamental_div_mod_converse;
use crate::draw::canvas::Canvas;
use crate::draw::pixel::{
    blend_deterministic, lemma_draw_pixel_effect, lemma_pixel_drawn_unique, pixel_drawn,
};
use crate::draw::clipping::selector::clipper_deterministic;
use crate::types::ColorRGBA;

verus! {

/// `|a - b|`.
pub open spec fn span(a: int, b: int) -> int {
    if a <= b { b - a } else { a - b }
}

/// The coordinate `d` unit steps from `from` in the direction of `to`
/// (downwards when `to == from`).
pub open spec fn toward(from: int, to: int, d: int) -> int {
    if to > from { from + d } else { from - d }
}

/// After `i` unit steps along the major axis (span `major`), how many unit
/// steps the minor axis (span `minor`) has taken: `i * minor / major`
/// rounded to the nearest integer, a half rounded down.
pub open spec fn minor_offset(minor: int, major: int, i: int) -> int {
    if major == 0 { 0 } else { (2 * minor * i + major - 1) / (2 * major) }
}

/// Number of pixels on the line from `(x0, y0)` to `(x1, y1)`:
/// one more than the longer of the two axis spans.
pub open spec fn line_len(x0: int, y0: int, x1: int, y1: int) -> nat {
    let dx = span(x0, x1);
    let dy = span(y0, y1);
    (if dx >= dy { dx + 1 } else { dy + 1 }) as nat
}

/// The `i`-th pixel of the line from `(x0, y0)` to `(x1, y1)`: `i` steps
/// along the axis of the longer span, the nearest step count along the other.
pub open spec fn line_point(x0: int, y0: int, x1: int, y1: int, i: int) -> (int, int) {
    let dx = span(x0, x1);
    let dy = span(y0, y1);
    if dy <= dx {
        (toward(x0, x1, i), toward(y0, y1, minor_offset(dy, dx, i)))
    } else {
        (toward(x0, x1, minor_offset(dx, dy, i)), toward(y0, y1, i))
    }
}

/// The pixels of the line, in drawing order.
pub open spec fn line_points(x0: i32, y0: i32, x1: i32, y1: i32) -> Seq<(i32, i32)> {
    Seq::new(
        line_len(x0 as int, y0 as int, x1 as int, y1 as int),
        |i: int|
            (
                line_point(x0 as int, y0 as int, x1 as int, y1 as int, i).0 as i32,
                line_point(x0 as int, y0 as int, x1 as int, y1 as int, i).1 as i32,
            ),
    )
}

/// The minor axis has not moved at the start, and never moves when its span is zero.
proof fn lemma_minor_offset_zero(minor: int, major: int, i: int)
    requires
        major > 0,
    ensures
        minor_offset(0, major, i) == 0,
        minor_offset(minor, major, 0) == 0,
{
    assert(2 * 0 * i == 0) by (nonlinear_arith);
    assert(2 * minor * 0 == 0) by (nonlinear_arith);
    lemma_fundamental_div_mod_converse(major - 1, 2 * major, 0, major - 1);
}

/// The minor offset stays within `0..=minor` over the line.
proof fn lemma_minor_offset_range(minor: int, major: int, i: int)
    requires
        0 <= minor <= major,
        major > 0,
        0 <= i <= major,
    ensures
        0 <= minor_offset(minor, major, i) <= minor,
{
    let a = 2 * minor * i + major - 1;
    assert(0 <= a) by (nonlinear_arith)
        requires
            0 <= minor,
            0 <= i,
            major > 0,
            a == 2 * minor * i + major - 1,
    ;
    assert(a < 2 * major * (minor + 1)) by (nonlinear_arith)
        requires
            0 <= minor <= major,
            0 <= i <= major,
            major > 0,
            a == 2 * minor * i + major - 1,
    ;
    let q = a / (2 * major);
    let r = a % (2 * major);
    assert(a == q * (2 * major) + r && 0 <= r < 2 * major) by (nonlinear_arith)
        requires
            major > 0,
            q == a / (2 * major),
            r == a % (2 * major),
    ;
    assert(0 <= q <= minor) by (nonlinear_arith)
        requires
            a == q * (2 * major) + r,
            0 <= r < 2 * major,
            0 <= a,
            a < 2 * major * (minor + 1),
            major > 0,
    ;
}

/// One step of the error-accumulator recurrence: with `k` minor steps after
/// `n` major steps and error term `dev`, the next minor offset is `k + 1`
/// exactly when `dev > 0`.
proof fn lemma_minor_step(minor: int, major: int, n: int, k: int, dev: int)
    requires
        0 <= minor <= major,
        major > 0,
        n >= 0,
        k == minor_offset(minor, major, n),
        dev == 2 * minor * (n + 1) - major - 2 * major * k,
    ensures
        dev > 0 ==> minor_offset(minor, major, n + 1) == k + 1,
        dev <= 0 ==> minor_offset(minor, major, n + 1) == k,
        dev > 0 ==> dev - 2 * major + 2 * minor == 2 * minor * (n + 2) - major - 2 * major * (k
            + 1),
        dev <= 0 ==> dev + 2 * minor == 2 * minor * (n + 2) - major - 2 * major * k,
{
    let d = 2 * major;
    let a = 2 * minor * n + major - 1;
    let b = 2 * minor * (n + 1) + major - 1;
    assert(b == a + 2 * minor) by (nonlinear_arith)
        requires
            a == 2 * minor * n + major - 1,
            b == 2 * minor * (n + 1) + major - 1,
    ;
    assert(a >= 0) by (nonlinear_arith)
        requires
            minor >= 0,
            n >= 0,
            major > 0,
            a == 2 * minor * n + major - 1,
    ;
    let r = a % d;
    assert(a == k * d + r && 0 <= r < d) by (nonlinear_arith)
        requires
            d > 0,
            k == a / d,
            r == a % d,
    ;
    assert(dev == b + 1 - d * k - d) by (nonlinear_arith)
        requires
            dev == 2 * minor * (n + 1) - major - 2 * major * k,
            b == 2 * minor * (n + 1) + major - 1,
            d == 2 * major,
    ;
    assert((k + 1) * d == k * d + d) by (nonlinear_arith);
    if dev > 0 {
        lemma_fundamental_div_mod_converse(b, d, k + 1, b - (k + 1) * d);
    } else {
        lemma_fundamental_div_mod_converse(b, d, k, b - k * d);
    }
    assert(2 * minor * (n + 2) == 2 * minor * (n + 1) + 2 * minor) by (nonlinear_arith);
    assert(2 * major * (k + 1) == 2 * major * k + 2 * major) by (nonlinear_arith);
}

/// Offsets along the line stay inside `i32`: every pixel of the line lies in
/// the bounding box of its two ends.
proof fn lemma_line_point_in_box(x0: i32, y0: i32, x1: i32, y1: i32, i: int)
    requires
        0 <= i < line_len(x0 as int, y0 as int, x1 as int, y1 as int),
    ensures
        ({
            let p = line_point(x0 as int, y0 as int, x1 as int, y1 as int, i);
            &&& (x0 <= x1 ==> x0 <= p.0 <= x1)
            &&& (x1 < x0 ==> x1 <= p.0 <= x0)
            &&& (y0 <= y1 ==> y0 <= p.1 <= y1)
            &&& (y1 < y0 ==> y1 <= p.1 <= y0)
        }),
{
    let dx = span(x0 as int, x1 as int);
    let dy = span(y0 as int, y1 as int);
    if dy <= dx {
        if dx > 0 {
            lemma_minor_offset_range(dy, dx, i);
        } else {
            assert(i == 0);
        }
    } else {
        lemma_minor_offset_range(dx, dy, i);
    }
}

/// The pixel in `line_points` is the exact `line_point`.
proof fn lemma_line_points_index(x0: i32, y0: i32, x1: i32, y1: i32, i: int)
    requires
        0 <= i < line_len(x0 as int, y0 as int, x1 as int, y1 as int),
    ensures
        line_points(x0, y0, x1, y1)[i].0 as int == line_point(
            x0 as int,
            y0 as int,
            x1 as int,
            y1 as int,
            i,
        ).0,
        line_points(x0, y0, x1, y1)[i].1 as int == line_point(
            x0 as int,
            y0 as int,
            x1 as int,
            y1 as int,
            i,
        ).1,
{
    lemma_line_point_in_box(x0, y0, x1, y1, i);
}

/// At the far end of the major axis the minor axis has covered its whole span.
proof fn lemma_minor_offset_end(minor: int, major: int)
    requires
        0 <= minor <= major,
        major > 0,
    ensures
        minor_offset(minor, major, major) == minor,
{
    let a = 2 * minor * major + major - 1;
    assert(a == minor * (2 * major) + (major - 1)) by (nonlinear_arith)
        requires
            a == 2 * minor * major + major - 1,
    ;
    lemma_fundamental_div_mod_converse(a, 2 * major, minor, major - 1);
}

/// A line is never empty: it starts at `(x0, y0)` and ends at `(x1, y1)`.
pub proof fn lemma_line_ends(x0: i32, y0: i32, x1: i32, y1: i32)
    ensures
        line_points(x0, y0, x1, y1).len() >= 1,
        line_points(x0, y0, x1, y1)[0] == (x0, y0),
        line_points(x0, y0, x1, y1).last() == (x1, y1),
{
    let dx = span(x0 as int, x1 as int);
    let dy = span(y0 as int, y1 as int);
    let n = line_len(x0 as int, y0 as int, x1 as int, y1 as int);
    lemma_line_points_index(x0, y0, x1, y1, 0);
    lemma_line_points_index(x0, y0, x1, y1, n - 1);
    if dy <= dx {
        if dx > 0 {
            lemma_minor_offset_zero(dy, dx, 0);
            lemma_minor_offset_end(dy, dx);
        }
    } else {
        lemma_minor_offset_zero(dx, dy, 0);
        lemma_minor_offset_end(dx, dy);
    }
}

/// One step of the minor offset moves it by at most one.
proof fn lemma_minor_offset_step(minor: int, major: int, i: int)
    requires
        0 <= minor <= major,
        major > 0,
        0 <= i,
    ensures
        minor_offset(minor, major, i) <= minor_offset(minor, major, i + 1) <= minor_offset(
            minor,
            major,
            i,
        ) + 1,
{
    let d = 2 * major;
    let a = 2 * minor * i + major - 1;
    let b = 2 * minor * (i + 1) + major - 1;
    let k = a / d;
    let r = a % d;
    assert(b == a + 2 * minor) by (nonlinear_arith)
        requires
            a == 2 * minor * i + major - 1,
            b == 2 * minor * (i + 1) + major - 1,
    ;
    assert(a >= 0) by (nonlinear_arith)
        requires
            minor >= 0,
            i >= 0,
            major > 0,
            a == 2 * minor * i + major - 1,
    ;
    assert(a == k * d + r && 0 <= r < d) by (nonlinear_arith)
        requires
            d > 0,
            k == a / d,
            r == a % d,
    ;
    assert((k + 1) * d == k * d + d) by (nonlinear_arith);
    if r + 2 * minor < d {
        lemma_fundamental_div_mod_converse(b, d, k, r + 2 * minor);
    } else {
        lemma_fundamental_div_mod_converse(b, d, k + 1, r + 2 * minor - d);
    }
}

/// Consecutive pixels of a line touch: the coordinate of the longer span
/// moves by exactly one, the other by at most one.
pub proof fn lemma_line_connected(x0: i32, y0: i32, x1: i32, y1: i32, i: int)
    requires
        0 <= i,
        i + 1 < line_points(x0, y0, x1, y1).len(),
    ensures
        ({
            let p = line_points(x0, y0, x1, y1)[i];
            let q = line_points(x0, y0, x1, y1)[i + 1];
            if span(y0 as int, y1 as int) <= span(x0 as int, x1 as int) {
                span(p.0 as int, q.0 as int) == 1 && span(p.1 as int, q.1 as int) <= 1
            } else {
                span(p.1 as int, q.1 as int) == 1 && span(p.0 as int, q.0 as int) <= 1
            }
        }),
{
    let dx = span(x0 as int, x1 as int);
    let dy = span(y0 as int, y1 as int);
    lemma_line_points_index(x0, y0, x1, y1, i);
    lemma_line_points_index(x0, y0, x1, y1, i + 1);
    if dy <= dx {
        lemma_minor_offset_step(dy, dx, i);
    } else {
        lemma_minor_offset_step(dx, dy, i);
    }
}

/// No pixel of a line is visited twice.
pub proof fn lemma_line_distinct(x0: i32, y0: i32, x1: i32, y1: i32, i: int, j: int)
    requires
        0 <= i < j < line_points(x0, y0, x1, y1).len(),
    ensures
        line_points(x0, y0, x1, y1)[i] != line_points(x0, y0, x1, y1)[j],
{
    lemma_line_points_index(x0, y0, x1, y1, i);
    lemma_line_points_index(x0, y0, x1, y1, j);
}

/// Each pixel is the nearest one to the ideal line along the axis of the
/// shorter span: with `i` steps taken along the longer span, the `k` steps
/// taken along the shorter one satisfy `-major <= 2·major·k - 2·minor·i < major`
/// (for a line longer than one pixel), i.e. `k` is `i·minor/major` rounded
/// to nearest, a half rounded down.
pub proof fn lemma_line_nearest(x0: i32, y0: i32, x1: i32, y1: i32, i: int)
    requires
        0 <= i < line_points(x0, y0, x1, y1).len(),
    ensures
        ({
            let p = line_points(x0, y0, x1, y1)[i];
            let dx = span(x0 as int, x1 as int);
            let dy = span(y0 as int, y1 as int);
            if dy <= dx {
                &&& span(x0 as int, p.0 as int) == i
                &&& dx > 0 ==> -dx <= 2 * dx * span(y0 as int, p.1 as int) - 2 * dy * i < dx
            } else {
                &&& span(y0 as int, p.1 as int) == i
                &&& -dy <= 2 * dy * span(x0 as int, p.0 as int) - 2 * dx * i < dy
            }
        }),
{
    let dx = span(x0 as int, x1 as int);
    let dy = span(y0 as int, y1 as int);
    let p = line_points(x0, y0, x1, y1)[i];
    lemma_line_points_index(x0, y0, x1, y1, i);
    if dy <= dx {
        if dx > 0 {
            let k = minor_offset(dy, dx, i);
            lemma_minor_offset_range(dy, dx, i);
            lemma_minor_offset_bounds(dy, dx, i);
            assert(span(y0 as int, p.1 as int) == k);
        } else {
            assert(i == 0);
        }
    } else {
        let k = minor_offset(dx, dy, i);
        lemma_minor_offset_range(dx, dy, i);
        lemma_minor_offset_bounds(dx, dy, i);
        assert(span(x0 as int, p.0 as int) == k);
    }
}

/// `minor_offset` is `i·minor/major` rounded to nearest, a half rounded down.
proof fn lemma_minor_offset_bounds(minor: int, major: int, i: int)
    requires
        0 <= minor <= major,
        major > 0,
        0 <= i,
    ensures
        -major <= 2 * major * minor_offset(minor, major, i) - 2 * minor * i < major,
{
    let d = 2 * major;
    let a = 2 * minor * i + major - 1;
    let k = a / d;
    assert(a >= 0) by (nonlinear_arith)
        requires
            minor >= 0,
            i >= 0,
            major > 0,
            a == 2 * minor * i + major - 1,
    ;
    assert(-major <= 2 * major * k - 2 * minor * i < major) by (nonlinear_arith)
        requires
            d == 2 * major,
            major > 0,
            a >= 0,
            a == 2 * minor * i + major - 1,
            k == a / d,
    ;
}

/// Bresenham's line algorithm: the pixels of the straight line from
/// `(x0, y0)` to `(x1, y1)`, both ends included, in drawing order.
pub fn bresenham_points(x0: i32, y0: i32, x1: i32, y1: i32) -> (pts: Vec<(i32, i32)>)
    ensures
        pts@ == line_points(x0, y0, x1, y1),
{
    let ghost target = line_points(x0, y0, x1, y1);
    let mut pts: Vec<(i32, i32)> = Vec::new();
    let mut dx: i64 = if x1 >= x0 { x1 as i64 - x0 as i64 } else { x0 as i64 - x1 as i64 };
    let mut dy: i64 = if y1 >= y0 { y1 as i64 - y0 as i64 } else { y0 as i64 - y1 as i64 };

    if dx == 0 && dy == 0 {
        pts.push((x0, y0));
        assert(pts@ =~= target);
        return pts;
    }
    let sx: i64 = if x1 > x0 { 1 } else { -1 };
    let sy: i64 = if y1 > y0 { 1 } else { -1 };
    let mut x: i64 = x0 as i64;
    let mut y: i64 = y0 as i64;

    if dx == 0 {
                let mut n: i64 = 0;
        while n <= dy
            invariant
                dx == 0,
                span(x0 as int, x1 as int) == 0,
                dy == span(y0 as int, y1 as int),
                dy > 0,
                0 <= n <= dy + 1,
                sy == (if y1 > y0 { 1int } else { -1int }),
                y == toward(y0 as int, y1 as int, n as int),
                target == line_points(x0, y0, x1, y1),
                target.len() == dy + 1,
                pts@ == target.take(n as int),
            decreases dy + 1 - n,
        {
            proof {
                lemma_minor_offset_zero(0, dy as int, n as int);
                assert(line_point(x0 as int, y0 as int, x1 as int, y1 as int, n as int) == (
                    x0 as int,
                    y as int,
                ));
                assert(target[n as int] == (x0, y as i32));
                assert(pts@.push((x0, y as i32)) =~= target.take(n + 1));
            }
            pts.push((x0, y as i32));
            y = y + sy;
            n = n + 1;
        }
        assert(pts@ =~= target);
        return pts;
    }
    if dy == 0 {
        let mut n: i64 = 0;
        while n <= dx
            invariant
                dy == 0,
                span(y0 as int, y1 as int) == 0,
                dx == span(x0 as int, x1 as int),
                dx > 0,
                0 <= n <= dx + 1,
                sx == (if x1 > x0 { 1int } else { -1int }),
                x == toward(x0 as int, x1 as int, n as int),
                target == line_points(x0, y0, x1, y1),
                target.len() == dx + 1,
                pts@ == target.take(n as int),
            decreases dx + 1 - n,
        {
            proof {
                lemma_minor_offset_zero(0, dx as int, n as int);
                assert(line_point(x0 as int, y0 as int, x1 as int, y1 as int, n as int) == (
                    x as int,
                    y0 as int,
                ));
                assert(target[n as int] == (x as i32, y0));
                assert(pts@.push((x as i32, y0)) =~= target.take(n + 1));
            }
            pts.push((x as i32, y0));
            x = x + sx;
            n = n + 1;
        }
        assert(pts@ =~= target);
        return pts;
    }

    let swap = dx < dy;
    if swap {
        let t = dx;
        dx = dy;
        dy = t;
    }
    // From here on `dx` is the major span and `dy` the minor one.
    let mut deviation: i64 = 2 * dy - dx;
    let ghost mut k: int = 0;
    let mut n: i64 = 0;
    proof {
        lemma_minor_offset_zero(dy as int, dx as int, 0);
    }
    while n <= dx
        invariant
            0 < dy <= dx,
            swap ==> dy < dx,
            dx <= u32::MAX,
            swap ==> dx == span(y0 as int, y1 as int) && dy == span(x0 as int, x1 as int),
            !swap ==> dx == span(x0 as int, x1 as int) && dy == span(y0 as int, y1 as int),
            sx == (if x1 > x0 { 1int } else { -1int }),
            sy == (if y1 > y0 { 1int } else { -1int }),
            0 <= n <= dx + 1,
            k == minor_offset(dy as int, dx as int, n as int),
            deviation == 2 * dy * (n + 1) - dx - 2 * dx * k,
            !swap ==> x == toward(x0 as int, x1 as int, n as int) && y == toward(y0 as int, y1 as int, k),
            swap ==> y == toward(y0 as int, y1 as int, n as int) && x == toward(x0 as int, x1 as int, k),
            target == line_points(x0, y0, x1, y1),
            target.len() == dx + 1,
            pts@ == target.take(n as int),
        decreases dx + 1 - n,
    {
        proof {
            lemma_minor_offset_range(dy as int, dx as int, n as int);
            lemma_minor_step(dy as int, dx as int, n as int, k, deviation as int);
            assert(line_point(x0 as int, y0 as int, x1 as int, y1 as int, n as int) == (
                x as int,
                y as int,
            ));
            assert(target[n as int] == (x as i32, y as i32));
            assert(pts@.push((x as i32, y as i32)) =~= target.take(n + 1));
        }
        pts.push((x as i32, y as i32));
        if deviation > 0 {
            if swap {
                x = x + sx;
            } else {
                y = y + sy;
            }
            deviation = deviation - 2 * dx;
            proof { k = k + 1; }
        }
        if swap {
            y = y + sy;
        } else {
            x = x + sx;
        }
        deviation = deviation + 2 * dy;
        n = n + 1;
    }
    assert(pts@ =~= target);
    pts
}

/// `states` is a run of `draw_pixel` over `pts`: `states[j + 1]` is
/// `states[j]` with `color` drawn at `pts[j]`.
pub open spec fn drawn_run<F: Fn(ColorRGBA, ColorRGBA) -> ColorRGBA>(
    canvas: Canvas,
    states: Seq<Seq<ColorRGBA>>,
    pts: Seq<(i32, i32)>,
    color: ColorRGBA,
    blend: F,
) -> bool {
    &&& states.len() == pts.len() + 1
    &&& forall|j: int|
        0 <= j < pts.len() ==> #[trigger] pixel_drawn(
            canvas,
            states[j],
            states[j + 1],
            pts[j].0 as int,
            pts[j].1 as int,
            color,
            blend,
        )
}

/// `after` is the buffer `before` (of a canvas shaped like `canvas`) with
/// `color` drawn by `draw_pixel` at each point of `pts` in order, each blend
/// taking one of `blend`'s outcomes.
pub open spec fn pixels_drawn<F: Fn(ColorRGBA, ColorRGBA) -> ColorRGBA>(
    canvas: Canvas,
    before: Seq<ColorRGBA>,
    after: Seq<ColorRGBA>,
    pts: Seq<(i32, i32)>,
    color: ColorRGBA,
    blend: F,
) -> bool {
    exists|states: Seq<Seq<ColorRGBA>>|
        #[trigger] drawn_run(canvas, states, pts, color, blend) && states[0] == before
            && states.last() == after
}

/// `after` is `before` with the line from `(x0, y0)` to `(x1, y1)` drawn
/// as `draw_line_aliased` draws it: the segment is clipped by an outcome of
/// `parametric`; nothing is drawn when it is clipped away, otherwise the
/// Bresenham pixels of the clipped segment go through `draw_pixel`.
pub open spec fn aliased_drawn<
    P: Fn(&Canvas, i32, i32, i32, i32) -> Option<(i32, i32, i32, i32)>,
    F: Fn(ColorRGBA, ColorRGBA) -> ColorRGBA,
>(
    canvas: Canvas,
    before: Seq<ColorRGBA>,
    after: Seq<ColorRGBA>,
    x0: i32,
    y0: i32,
    x1: i32,
    y1: i32,
    color: ColorRGBA,
    parametric: P,
    blend: F,
) -> bool {
    exists|r: Option<(i32, i32, i32, i32)>|
        #[trigger] call_ensures(parametric, (&canvas, x0, y0, x1, y1), r) && match r {
            None => after == before,
            Some((a, b, c, d)) => pixels_drawn(
                canvas,
                before,
                after,
                line_points(a, b, c, d),
                color,
                blend,
            ),
        }
}

/// Pixel `k` of the buffer is one of the first `n` points of `pts` that lie
/// on the canvas (in row-major position `y * width + x`).
pub open spec fn hit_by(canvas: Canvas, pts: Seq<(i32, i32)>, n: int, k: int) -> bool {
    exists|m: int|
        0 <= m < n && #[trigger] canvas.contains_point(pts[m].0 as int, pts[m].1 as int)
            && pts[m].1 * canvas.width + pts[m].0 == k
}

/// After `j` steps of a run, only pixels hit by the first `j` points have
/// changed; with an opaque colour each of those holds the colour, and a
/// transparent colour changes nothing.
proof fn lemma_run_effect<F: Fn(ColorRGBA, ColorRGBA) -> ColorRGBA>(
    canvas: Canvas,
    states: Seq<Seq<ColorRGBA>>,
    pts: Seq<(i32, i32)>,
    color: ColorRGBA,
    blend: F,
    j: int,
)
    requires
        canvas.wf(),
        states[0].len() == canvas@.len(),
        drawn_run(canvas, states, pts, color, blend),
        0 <= j <= pts.len(),
    ensures
        states[j].len() == states[0].len(),
        forall|k: int|
            0 <= k < states[0].len() && !hit_by(canvas, pts, j, k) ==> states[j][k]
                == states[0][k],
        (color & 0xFF) == 0xFF ==> forall|k: int|
            0 <= k < states[0].len() && hit_by(canvas, pts, j, k) ==> states[j][k] == color,
        (color & 0xFF) == 0 ==> states[j] == states[0],
    decreases j,
{
    if j > 0 {
        let m = j - 1;
        lemma_run_effect(canvas, states, pts, color, blend, m);
        assert(pixel_drawn(
            canvas,
            states[m],
            states[m + 1],
            pts[m].0 as int,
            pts[m].1 as int,
            color,
            blend,
        ));
        let (px, py) = (pts[m].0 as int, pts[m].1 as int);
        lemma_draw_pixel_effect(canvas, states[m], states[j], px, py, color, blend);
        let idx = py * canvas.width + px;
        assert forall|k: int|
            0 <= k < states[0].len() && !hit_by(canvas, pts, j, k) implies states[j][k]
                == states[0][k] by {
            if hit_by(canvas, pts, m, k) {
                let w = choose|w: int|
                    0 <= w < m && #[trigger] canvas.contains_point(pts[w].0 as int, pts[w].1 as int)
                        && pts[w].1 * canvas.width + pts[w].0 == k;
                assert(0 <= w < j && canvas.contains_point(pts[w].0 as int, pts[w].1 as int));
            }
            if canvas.contains_point(px, py) && k == idx {
                assert(canvas.contains_point(pts[m].0 as int, pts[m].1 as int));
            }
        }
        if (color & 0xFF) == 0xFF {
            assert forall|k: int|
                0 <= k < states[0].len() && hit_by(canvas, pts, j, k) implies states[j][k]
                    == color by {
                let w = choose|w: int|
                    0 <= w < j && #[trigger] canvas.contains_point(pts[w].0 as int, pts[w].1 as int)
                        && pts[w].1 * canvas.width + pts[w].0 == k;
                if w < m {
                    assert(hit_by(canvas, pts, m, k));
                }
            }
        }
    }
}

/// Drawing a sequence of pixels changes only the pixels of its points that
/// lie on the canvas; with an opaque colour (`AA = 0xFF`) each of those ends
/// up holding the colour, and a transparent colour (`AA = 0x00`) changes nothing.
pub proof fn lemma_pixels_drawn_effect<F: Fn(ColorRGBA, ColorRGBA) -> ColorRGBA>(
    canvas: Canvas,
    before: Seq<ColorRGBA>,
    after: Seq<ColorRGBA>,
    pts: Seq<(i32, i32)>,
    color: ColorRGBA,
    blend: F,
)
    requires
        canvas.wf(),
        before.len() == canvas@.len(),
        pixels_drawn(canvas, before, after, pts, color, blend),
    ensures
        after.len() == before.len(),
        forall|k: int|
            0 <= k < before.len() && !hit_by(canvas, pts, pts.len() as int, k) ==> after[k]
                == before[k],
        (color & 0xFF) == 0xFF ==> forall|k: int|
            0 <= k < before.len() && hit_by(canvas, pts, pts.len() as int, k) ==> after[k]
                == color,
        (color & 0xFF) == 0 ==> after == before,
{
    let states = choose|states: Seq<Seq<ColorRGBA>>|
        #[trigger] drawn_run(canvas, states, pts, color, blend) && states[0] == before
            && states.last() == after;
    lemma_run_effect(canvas, states, pts, color, blend, pts.len() as int);
}

/// What an aliased line does to the canvas, given the clipper's answer
/// `clip` for the segment: when the segment is clipped away nothing changes;
/// when it is clipped to `(a, b)`–`(c, d)` the only pixels that can change are
/// Bresenham pixels of that segment taken from `(a, b)` to `(c, d)`, all inside
/// the box the two ends span, and with an opaque colour every such pixel on
/// the canvas, both ends included, holds the colour.
pub proof fn lemma_aliased_line_effect<
    P: Fn(&Canvas, i32, i32, i32, i32) -> Option<(i32, i32, i32, i32)>,
    F: Fn(ColorRGBA, ColorRGBA) -> ColorRGBA,
>(
    canvas: Canvas,
    before: Seq<ColorRGBA>,
    after: Seq<ColorRGBA>,
    x0: i32,
    y0: i32,
    x1: i32,
    y1: i32,
    color: ColorRGBA,
    parametric: P,
    blend: F,
    clip: Option<(i32, i32, i32, i32)>,
)
    requires
        canvas.wf(),
        before.len() == canvas@.len(),
        clipper_deterministic(parametric),
        call_ensures(parametric, (&canvas, x0, y0, x1, y1), clip),
        aliased_drawn(canvas, before, after, x0, y0, x1, y1, color, parametric, blend),
    ensures
        after.len() == before.len(),
        clip is None ==> after == before,
        clip matches Some((a, b, c, d)) ==> {
            &&& forall|x: int, y: int|
                canvas.contains_point(x, y) && after[y * canvas.width + x] != before[y
                    * canvas.width + x] ==> {
                    &&& (if a <= c { a <= x <= c } else { c <= x <= a })
                    &&& (if b <= d { b <= y <= d } else { d <= y <= b })
                    &&& exists|m: int|
                        0 <= m < bresenham_len(a, b, c, d) && #[trigger] line_points(a, b, c, d)[m]
                            == (x as i32, y as i32)
                }
            &&& (color & 0xFF) == 0xFF && canvas.contains_point(a as int, b as int) ==> after[b
                * canvas.width + a] == color
            &&& (color & 0xFF) == 0xFF && canvas.contains_point(c as int, d as int) ==> after[d
                * canvas.width + c] == color
            &&& (color & 0xFF) == 0xFF ==> forall|m: int|
                0 <= m < bresenham_len(a, b, c, d) && canvas.contains_point(
                    #[trigger] line_points(a, b, c, d)[m].0 as int,
                    line_points(a, b, c, d)[m].1 as int,
                ) ==> after[line_points(a, b, c, d)[m].1 * canvas.width + line_points(
                    a,
                    b,
                    c,
                    d,
                )[m].0] == color
        },
{
    let r = choose|r: Option<(i32, i32, i32, i32)>|
        #[trigger] call_ensures(parametric, (&canvas, x0, y0, x1, y1), r) && match r {
            None => after == before,
            Some((a, b, c, d)) => pixels_drawn(
                canvas,
                before,
                after,
                line_points(a, b, c, d),
                color,
                blend,
            ),
        };
    assert(r == clip);
    if let Some((a, b, c, d)) = clip {
        let pts = line_points(a, b, c, d);
        let n = pts.len() as int;
        lemma_pixels_drawn_effect(canvas, before, after, pts, color, blend);
        lemma_line_ends(a, b, c, d);
        assert forall|x: int, y: int|
            canvas.contains_point(x, y) && after[y * canvas.width + x] != before[y * canvas.width
                + x] implies {
            &&& (if a <= c { a <= x <= c } else { c <= x <= a })
            &&& (if b <= d { b <= y <= d } else { d <= y <= b })
            &&& exists|m: int|
                0 <= m < bresenham_len(a, b, c, d) && #[trigger] line_points(a, b, c, d)[m] == (
                    x as i32,
                    y as i32,
                )
        } by {
            canvas.lemma_index_in_buffer(x, y);
            let k = y * canvas.width + x;
            assert(hit_by(canvas, pts, n, k));
            let m = choose|m: int|
                0 <= m < n && #[trigger] canvas.contains_point(pts[m].0 as int, pts[m].1 as int)
                    && pts[m].1 * canvas.width + pts[m].0 == k;
            canvas.lemma_index_unique(pts[m].0 as int, pts[m].1 as int, x, y);
            lemma_line_points_index(a, b, c, d, m);
            lemma_line_point_in_box(a, b, c, d, m);
        }
        if (color & 0xFF) == 0xFF {
            assert forall|m: int|
                0 <= m < bresenham_len(a, b, c, d) && canvas.contains_point(
                    #[trigger] line_points(a, b, c, d)[m].0 as int,
                    line_points(a, b, c, d)[m].1 as int,
                ) implies after[line_points(a, b, c, d)[m].1 * canvas.width + line_points(
                a,
                b,
                c,
                d,
            )[m].0] == color by {
                let k = pts[m].1 * canvas.width + pts[m].0;
                canvas.lemma_index_in_buffer(pts[m].0 as int, pts[m].1 as int);
                assert(hit_by(canvas, pts, n, k));
            }
            if canvas.contains_point(a as int, b as int) {
                canvas.lemma_index_in_buffer(a as int, b as int);
                assert(canvas.contains_point(pts[0].0 as int, pts[0].1 as int));
                assert(hit_by(canvas, pts, n, b * canvas.width + a));
            }
            if canvas.contains_point(c as int, d as int) {
                canvas.lemma_index_in_buffer(c as int, d as int);
                assert(canvas.contains_point(pts[n - 1].0 as int, pts[n - 1].1 as int));
                assert(hit_by(canvas, pts, n, d * canvas.width + c));
            }
        }
    }
}

/// Number of pixels of the Bresenham line from `(x0, y0)` to `(x1, y1)`:
/// one more than the longer of its two axis spans.
pub open spec fn bresenham_len(x0: i32, y0: i32, x1: i32, y1: i32) -> int {
    let dx = if x0 <= x1 { x1 - x0 } else { x0 - x1 };
    let dy = if y0 <= y1 { y1 - y0 } else { y0 - y1 };
    if dx >= dy { dx + 1 } else { dy + 1 }
}

/// Drawing a sequence of pixels is drawing all but the last point, then
/// the last point with `draw_pixel`.
pub proof fn lemma_pixels_drawn_split<F: Fn(ColorRGBA, ColorRGBA) -> ColorRGBA>(
    canvas: Canvas,
    before: Seq<ColorRGBA>,
    after: Seq<ColorRGBA>,
    pts: Seq<(i32, i32)>,
    color: ColorRGBA,
    blend: F,
)
    requires
        pts.len() > 0,
        pixels_drawn(canvas, before, after, pts, color, blend),
    ensures
        exists|mid: Seq<ColorRGBA>|
            pixels_drawn(canvas, before, mid, pts.drop_last(), color, blend) && pixel_drawn(
                canvas,
                mid,
                after,
                pts.last().0 as int,
                pts.last().1 as int,
                color,
                blend,
            ),
{
    let states = choose|states: Seq<Seq<ColorRGBA>>|
        #[trigger] drawn_run(canvas, states, pts, color, blend) && states[0] == before
            && states.last() == after;
    let n = pts.len() as int;
    let mid = states[n - 1];
    let first = states.take(n);
    assert forall|j: int| 0 <= j < pts.drop_last().len() implies #[trigger] pixel_drawn(
        canvas,
        first[j],
        first[j + 1],
        pts.drop_last()[j].0 as int,
        pts.drop_last()[j].1 as int,
        color,
        blend,
    ) by {
        assert(pixel_drawn(
            canvas,
            states[j],
            states[j + 1],
            pts[j].0 as int,
            pts[j].1 as int,
            color,
            blend,
        ));
    }
    assert(drawn_run(canvas, first, pts.drop_last(), color, blend));
    assert(first[0] == before && first.last() == mid);
    assert(pixels_drawn(canvas, before, mid, pts.drop_last(), color, blend));
    assert(pixel_drawn(
        canvas,
        states[n - 1],
        states[n - 1 + 1],
        pts[n - 1].0 as int,
        pts[n - 1].1 as int,
        color,
        blend,
    ));
}

/// A line whose two ends coincide is the single pixel there, and drawing it
/// is drawing that one pixel.
pub proof fn lemma_single_point_line<F: Fn(ColorRGBA, ColorRGBA) -> ColorRGBA>(
    canvas: Canvas,
    before: Seq<ColorRGBA>,
    after: Seq<ColorRGBA>,
    x: i32,
    y: i32,
    color: ColorRGBA,
    blend: F,
)
    ensures
        line_points(x, y, x, y) == seq![(x, y)],
        pixels_drawn(canvas, before, after, line_points(x, y, x, y), color, blend) <==> pixel_drawn(
            canvas,
            before,
            after,
            x as int,
            y as int,
            color,
            blend,
        ),
{
    lemma_line_ends(x, y, x, y);
    assert(line_points(x, y, x, y) =~= seq![(x, y)]);
    let pts = seq![(x, y)];
    if pixels_drawn(canvas, before, after, pts, color, blend) {
        let states = choose|states: Seq<Seq<ColorRGBA>>|
            #[trigger] drawn_run(canvas, states, pts, color, blend) && states[0] == before
                && states.last() == after;
        assert(pixel_drawn(canvas, states[0], states[1], pts[0].0 as int, pts[0].1 as int, color, blend));
    }
    if pixel_drawn(canvas, before, after, x as int, y as int, color, blend) {
        let states = seq![before, after];
        assert(pixel_drawn(canvas, states[0], states[1], pts[0].0 as int, pts[0].1 as int, color, blend));
        assert(drawn_run(canvas, states, pts, color, blend));
    }
}

/// Two runs over the same points from the same start agree step by step.
proof fn lemma_runs_agree<F: Fn(ColorRGBA, ColorRGBA) -> ColorRGBA>(
    canvas: Canvas,
    s1: Seq<Seq<ColorRGBA>>,
    s2: Seq<Seq<ColorRGBA>>,
    pts: Seq<(i32, i32)>,
    color: ColorRGBA,
    blend: F,
    j: int,
)
    requires
        blend_deterministic(blend),
        drawn_run(canvas, s1, pts, color, blend),
        drawn_run(canvas, s2, pts, color, blend),
        s1[0] == s2[0],
        0 <= j <= pts.len(),
    ensures
        s1[j] == s2[j],
    decreases j,
{
    if j > 0 {
        lemma_runs_agree(canvas, s1, s2, pts, color, blend, j - 1);
        assert(pixel_drawn(canvas, s1[j - 1], s1[j - 1 + 1], pts[j - 1].0 as int, pts[j - 1].1 as int, color, blend));
        assert(pixel_drawn(canvas, s2[j - 1], s2[j - 1 + 1], pts[j - 1].0 as int, pts[j - 1].1 as int, color, blend));
        lemma_pixel_drawn_unique(
            canvas,
            s1[j - 1],
            s1[j],
            s2[j],
            pts[j - 1].0 as int,
            pts[j - 1].1 as int,
            color,
            blend,
        );
    }
}

/// With a deterministic blend, drawing a sequence of pixels has exactly one outcome.
pub proof fn lemma_pixels_drawn_unique<F: Fn(ColorRGBA, ColorRGBA) -> ColorRGBA>(
    canvas: Canvas,
    before: Seq<ColorRGBA>,
    after1: Seq<ColorRGBA>,
    after2: Seq<ColorRGBA>,
    pts: Seq<(i32, i32)>,
    color: ColorRGBA,
    blend: F,
)
    requires
        blend_deterministic(blend),
        pixels_drawn(canvas, before, after1, pts, color, blend),
        pixels_drawn(canvas, before, after2, pts, color, blend),
    ensures
        after1 == after2,
{
    let s1 = choose|states: Seq<Seq<ColorRGBA>>|
        #[trigger] drawn_run(canvas, states, pts, color, blend) && states[0] == before
            && states.last() == after1;
    let s2 = choose|states: Seq<Seq<ColorRGBA>>|
        #[trigger] drawn_run(canvas, states, pts, color, blend) && states[0] == before
            && states.last() == after2;
    lemma_runs_agree(canvas, s1, s2, pts, color, blend, pts.len() as int);
}

/// With a deterministic clipper and blend, an aliased line has exactly one outcome.
pub proof fn lemma_aliased_drawn_unique<
    P: Fn(&Canvas, i32, i32, i32, i32) -> Option<(i32, i32, i32, i32)>,
    F: Fn(ColorRGBA, ColorRGBA) -> ColorRGBA,
>(
    canvas: Canvas,
    before: Seq<ColorRGBA>,
    after1: Seq<ColorRGBA>,
    after2: Seq<ColorRGBA>,
    x0: i32,
    y0: i32,
    x1: i32,
    y1: i32,
    color: ColorRGBA,
    parametric: P,
    blend: F,
)
    requires
        clipper_deterministic(parametric),
        blend_deterministic(blend),
        aliased_drawn(canvas, before, after1, x0, y0, x1, y1, color, parametric, blend),
        aliased_drawn(canvas, before, after2, x0, y0, x1, y1, color, parametric, blend),
    ensures
        after1 == after2,
{
    let r1 = choose|r: Option<(i32, i32, i32, i32)>|
        #[trigger] call_ensures(parametric, (&canvas, x0, y0, x1, y1), r) && match r {
            None => after1 == before,
            Some((a, b, c, d)) => pixels_drawn(
                canvas,
                before,
                after1,
                line_points(a, b, c, d),
                color,
                blend,
            ),
        };
    let r2 = choose|r: Option<(i32, i32, i32, i32)>|
        #[trigger] call_ensures(parametric, (&canvas, x0, y0, x1, y1), r) && match r {
            None => after2 == before,
            Some((a, b, c, d)) => pixels_drawn(
                canvas,
                before,
                after2,
                line_points(a, b, c, d),
                color,
                blend,
            ),
        };
    assert(r1 == r2);
    if let Some((a, b, c, d)) = r1 {
        lemma_pixels_drawn_unique(canvas, before, after1, after2, line_points(a, b, c, d), color, blend);
    }
}

impl Canvas {
    /// Draws a straight line between two points. The segment is first
    /// clipped to the canvas with `parametric` (Liang-Barsky); if any of it
    /// is left, every pixel of `bresenham_points` of the clipped segment in
    /// turn goes through `draw_pixel` with `color` and `blend`.
    pub fn draw_line_aliased<
        P: Fn(&Canvas, i32, i32, i32, i32) -> Option<(i32, i32, i32, i32)>,
        F: Fn(ColorRGBA, ColorRGBA) -> ColorRGBA,
    >(
        &mut self,
        x0: i32,
        y0: i32,
        x1: i32,
        y1: i32,
        color: ColorRGBA,
        parametric: &P,
        blend: F,
    )
        requires
            old(self).wf(),
            forall|c: &Canvas, a: i32, b: i32, d: i32, e: i32|
                call_requires(*parametric, (c, a, b, d, e)),
            forall|s: ColorRGBA, d: ColorRGBA| call_requires(blend, (s, d)),
        ensures
            final(self).wf(),
            final(self).width == old(self).width,
            final(self).height == old(self).height,
            final(self).background_color == old(self).background_color,
            final(self).line_draw_algorithm == old(self).line_draw_algorithm,
            final(self).line_clip_algorithm == old(self).line_clip_algorithm,
            aliased_drawn(
                *old(self),
                old(self)@,
                final(self)@,
                x0,
                y0,
                x1,
                y1,
                color,
                *parametric,
                blend,
            ),
    {
        let clipped = parametric(&*self, x0, y0, x1, y1);
        match clipped {
            None => {},
            Some((a, b, c, d)) => self.rasterise_aliased(a, b, c, d, color, &blend),
        }
    }

    /// Draws the Bresenham pixels of the segment through `draw_pixel`.
    fn rasterise_aliased<F: Fn(ColorRGBA, ColorRGBA) -> ColorRGBA>(
        &mut self,
        x0: i32,
        y0: i32,
        x1: i32,
        y1: i32,
        color: ColorRGBA,
        blend: &F,
    )
        requires
            old(self).wf(),
            forall|s: ColorRGBA, d: ColorRGBA| call_requires(*blend, (s, d)),
        ensures
            final(self).wf(),
            final(self).width == old(self).width,
            final(self).height == old(self).height,
            final(self).background_color == old(self).background_color,
            final(self).line_draw_algorithm == old(self).line_draw_algorithm,
            final(self).line_clip_algorithm == old(self).line_clip_algorithm,
            pixels_drawn(
                *old(self),
                old(self)@,
                final(self)@,
                line_points(x0, y0, x1, y1),
                color,
                *blend,
            ),
    {
        let pts = bresenham_points(x0, y0, x1, y1);
        let n = pts.len();
        let ghost canvas = *old(self);
        let ghost mut states: Seq<Seq<ColorRGBA>> = seq![old(self)@];
        let mut i: usize = 0;
        while i < n
            invariant
                n == pts@.len(),
                pts@ == line_points(x0, y0, x1, y1),
                i <= n,
                self.wf(),
                canvas == *old(self),
                self.width == old(self).width,
                self.height == old(self).height,
                self.background_color == old(self).background_color,
                self.line_draw_algorithm == old(self).line_draw_algorithm,
                self.line_clip_algorithm == old(self).line_clip_algorithm,
                forall|s: ColorRGBA, d: ColorRGBA| call_requires(*blend, (s, d)),
                states.len() == i + 1,
                states[0] == old(self)@,
                states[i as int] == self@,
                forall|j: int|
                    0 <= j < i ==> #[trigger] pixel_drawn(
                        canvas,
                        states[j],
                        states[j + 1],
                        pts@[j].0 as int,
                        pts@[j].1 as int,
                        color,
                        *blend,
                    ),
            decreases n - i,
        {
            let (x, y) = pts[i];
            self.draw_pixel(x, y, color, blend);
            proof {
                let prev_states = states;
                states = states.push(self@);
                assert forall|j: int| 0 <= j < i + 1 implies #[trigger] pixel_drawn(
                    canvas,
                    states[j],
                    states[j + 1],
                    pts@[j].0 as int,
                    pts@[j].1 as int,
                    color,
                    *blend,
                ) by {
                    if j < i {
                        assert(states[j] == prev_states[j]);
                        assert(states[j + 1] == prev_states[j + 1]);
                    }
                }
            }
            i = i + 1;
        }
        assert(drawn_run(canvas, states, pts@, color, *blend));
    }
}

} // verus!
