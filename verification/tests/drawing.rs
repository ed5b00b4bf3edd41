use ege::draw::canvas::Canvas;
use ege::draw::line::aliased::bresenham_points;
use ege::types::{LineClipAlgorithm, LineDrawAlgorithm};

/// Straight-alpha "over" in double precision.
fn over(src: u32, dst: u32) -> u32 {
    let f = |c: u32, s: u32| ((c >> s) & 0xFF) as f64 / 255.0;
    let (sa, da) = (f(src, 0), f(dst, 0));
    let out_a = sa + da * (1.0 - sa);
    if out_a < f64::EPSILON {
        return 0;
    }
    let ch = |s: u32| {
        let v = (f(src, s) * sa + f(dst, s) * da * (1.0 - sa)) / out_a;
        ((v.clamp(0.0, 1.0) * 255.0).round() as u32) << s
    };
    ch(24) | ch(16) | ch(8) | (out_a.clamp(0.0, 1.0) * 255.0).round() as u32
}

/// Liang-Barsky clipping to the canvas in double precision.
fn liang_barsky(c: &Canvas, x0: i32, y0: i32, x1: i32, y1: i32) -> Option<(i32, i32, i32, i32)> {
    let (x0f, y0f) = (x0 as f64, y0 as f64);
    let (dx, dy) = ((x1 - x0) as f64, (y1 - y0) as f64);
    let (xmax, ymax) = (c.width as f64 - 1.0, c.height as f64 - 1.0);
    let p = [-dx, dx, -dy, dy];
    let q = [x0f, xmax - x0f, y0f, ymax - y0f];
    let (mut t0, mut t1) = (0.0f64, 1.0f64);
    for i in 0..4 {
        if p[i] == 0.0 {
            if q[i] < 0.0 {
                return None;
            }
            continue;
        }
        let t = q[i] / p[i];
        if p[i] < 0.0 {
            if t > t0 {
                t0 = t;
            }
        } else if t < t1 {
            t1 = t;
        }
        if t0 > t1 {
            return None;
        }
    }
    Some((
        (x0f + t0 * dx).round() as i32,
        (y0f + t0 * dy).round() as i32,
        (x0f + t1 * dx).round() as i32,
        (y0f + t1 * dy).round() as i32,
    ))
}

fn no_clip(_: &Canvas, x0: i32, y0: i32, x1: i32, y1: i32) -> Option<(i32, i32, i32, i32)> {
    Some((x0, y0, x1, y1))
}

fn marker(_src: u32, _dst: u32) -> u32 {
    0xABCDEF12
}

#[test]
fn draw_pixel_opaque_overwrites() {
    let mut c = Canvas::new(3, 3, Some(0x11223344));
    c.draw_pixel(1, 2, 0xAABBCCFF, &marker);
    assert_eq!(c.get_pixel(1, 2), Some(0xAABBCCFF));
    assert_eq!(c.get_pixel(0, 0), Some(0x11223344));
}

#[test]
fn draw_pixel_transparent_leaves_pixel() {
    let mut c = Canvas::new(3, 3, Some(0x11223344));
    c.draw_pixel(1, 1, 0xAABBCC00, &marker);
    assert_eq!(c.pixels(), Canvas::new(3, 3, Some(0x11223344)).pixels());
    let mut t = Canvas::new(1, 1, Some(0x12345600));
    t.draw_pixel(0, 0, 0xFFFFFF00, &over);
    assert_eq!(t.get_pixel(0, 0), Some(0x12345600));
}

#[test]
fn draw_pixel_out_of_bounds_ignored() {
    let mut c = Canvas::new(2, 2, None);
    c.draw_pixel(2, 0, 0xFFFFFFFF, &marker);
    c.draw_pixel(-1, 1, 0xFFFFFFFF, &marker);
    c.draw_pixel(0, 5, 0xFFFFFFFF, &marker);
    assert!(c.pixels().iter().all(|&p| p == 0x000000FF));
}

#[test]
fn draw_pixel_partial_alpha_blends() {
    let mut c = Canvas::new(2, 1, Some(0x000000FF));
    c.draw_pixel(1, 0, 0xFF000080, &marker);
    assert_eq!(c.pixels(), &[0x000000FF, 0xABCDEF12]);
    let mut d = Canvas::new(1, 1, Some(0x000000FF));
    d.draw_pixel(0, 0, 0xFF000080, &over);
    assert_eq!(d.get_pixel(0, 0), Some(over(0xFF000080, 0x000000FF)));
    assert_eq!(d.get_pixel(0, 0), Some(0x800000FF));
}

#[test]
fn aliased_line_draws_bresenham_pixels() {
    let mut c = Canvas::new(6, 4, Some(0));
    c.draw_line_aliased(0, 0, 5, 3, 0xFFFFFFFF, &liang_barsky, over);
    let pts = bresenham_points(0, 0, 5, 3);
    for y in 0..4 {
        for x in 0..6 {
            let expected = if pts.contains(&(x, y)) { 0xFFFFFFFF } else { 0 };
            assert_eq!(c.get_pixel(x, y), Some(expected));
        }
    }
}

#[test]
fn aliased_line_off_canvas_parts_skipped() {
    let mut c = Canvas::new(3, 3, Some(0));
    c.draw_line_aliased(-2, 1, 4, 1, 0x010203FF, &no_clip, over);
    assert_eq!(c.pixels(), &[0, 0, 0, 0x010203FF, 0x010203FF, 0x010203FF, 0, 0, 0]);
}

#[test]
fn antialiased_line_composites_each_plot() {
    let plots = |_: i32, _: i32, _: i32, _: i32, col: u32| vec![(0, 0, col), (5, 5, col), (1, 0, col & 0xFFFFFF00), (0, 0, col)];
    let count = |_src: u32, dst: u32| dst + 1;
    let mut c = Canvas::new(2, 1, Some(10));
    c.draw_line_antialiased(0, 0, 1, 0, 0xFF, &no_clip, plots, count);
    // (0,0) composited twice, (1,0) once (even at zero alpha), (5,5) skipped.
    assert_eq!(c.pixels(), &[12, 11]);
}

#[test]
fn line_clip_selects_algorithm() {
    let p = |_: &Canvas, _: i32, _: i32, _: i32, _: i32| Some((1, 1, 1, 1));
    let r = |_: &Canvas, _: i32, _: i32, _: i32, _: i32| None;
    let mut c = Canvas::new(4, 4, None);
    assert_eq!(c.line_clip(-5, 0, 9, 3, &p, &r), Some((1, 1, 1, 1)));
    c.set_line_clip_algorithm(LineClipAlgorithm::RegionCode);
    assert_eq!(c.line_clip(-5, 0, 9, 3, &p, &r), None);
    c.set_line_clip_algorithm(LineClipAlgorithm::NoClip);
    assert_eq!(c.line_clip(-5, 0, 9, 3, &p, &r), Some((-5, 0, 9, 3)));
}

#[test]
fn draw_line_clips_then_draws() {
    let clip = |_: &Canvas, _: i32, _: i32, _: i32, _: i32| Some((0, 0, 2, 0));
    let none = |_: &Canvas, _: i32, _: i32, _: i32, _: i32| None;
    let plots = |x0: i32, y0: i32, _: i32, _: i32, col: u32| vec![(x0, y0, col)];
    let mut c = Canvas::new(3, 2, Some(0));
    c.draw_line(-10, 0, 10, 0, 0x0A0B0CFF, &clip, &none, plots, over);
    assert_eq!(c.pixels(), &[0x0A0B0CFF, 0x0A0B0CFF, 0x0A0B0CFF, 0, 0, 0]);

    let mut d = Canvas::new(3, 2, Some(0));
    d.set_line_clip_algorithm(LineClipAlgorithm::RegionCode);
    d.draw_line(0, 0, 2, 1, 0xFFFFFFFF, &clip, &none, plots, over);
    assert!(d.pixels().iter().all(|&p| p == 0));

    let mut e = Canvas::new(3, 2, Some(0));
    e.set_line_draw_algorithm(LineDrawAlgorithm::Antialiased);
    e.draw_line(9, 9, 9, 9, 0x000000FF, &clip, &none, plots, |_s: u32, _d: u32| 7);
    assert_eq!(e.pixels(), &[7, 0, 0, 0, 0, 0]);
}

#[test]
fn aliased_line_is_clipped_first() {
    let mut c = Canvas::new(10, 10, Some(0x000000FF));
    c.draw_line_aliased(-1, 0, 1, 1, 0xFFFFFFFF, &liang_barsky, over);
    assert_eq!(c.get_pixel(0, 1), Some(0xFFFFFFFF));
    assert_eq!(c.get_pixel(1, 1), Some(0xFFFFFFFF));
    assert_eq!(c.get_pixel(0, 0), Some(0x000000FF));
}

#[test]
fn antialiased_line_plots_clipped_segment() {
    let seen = std::cell::RefCell::new(Vec::new());
    let plots = |x0: i32, y0: i32, x1: i32, y1: i32, _: u32| {
        seen.borrow_mut().push((x0, y0, x1, y1));
        Vec::new()
    };
    let mut c = Canvas::new(10, 10, Some(0x000000FF));
    c.draw_line_antialiased(-2, 5, 5, 5, 0xFF0000FF, &liang_barsky, plots, over);
    assert_eq!(*seen.borrow(), vec![(0, 5, 5, 5)]);
    // A segment clipped away entirely asks for no plots at all.
    c.draw_line_antialiased(-9, -9, -5, -5, 0xFF0000FF, &liang_barsky, plots, over);
    assert_eq!(seen.borrow().len(), 1);
}

#[test]
fn clipped_away_line_draws_nothing() {
    let mut c = Canvas::new(4, 4, Some(3));
    c.draw_line_aliased(-5, -1, -1, -3, 0xFFFFFFFF, &liang_barsky, marker);
    c.draw_line(6, 0, 9, 3, 0xFFFFFFFF, &liang_barsky, &liang_barsky, |_: i32, _: i32, _: i32, _: i32, _: u32| Vec::new(), marker);
    assert!(c.pixels().iter().all(|&p| p == 3));
}

#[test]
fn single_point_line_is_one_pixel() {
    let mut a = Canvas::new(3, 3, Some(0x10203040));
    let mut b = Canvas::new(3, 3, Some(0x10203040));
    a.draw_line_aliased(1, 2, 1, 2, 0xFF000080, &liang_barsky, over);
    b.draw_pixel(1, 2, 0xFF000080, &over);
    assert_eq!(a.pixels(), b.pixels());
}
