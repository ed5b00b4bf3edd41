use ege::draw::line::aliased::bresenham_points;

/// The textbook error-accumulator formulation, stepping in `i64`.
fn reference(x0: i32, y0: i32, x1: i32, y1: i32) -> Vec<(i32, i32)> {
    let mut out = Vec::new();
    let mut dx = (x1 as i64 - x0 as i64).abs();
    let mut dy = (y1 as i64 - y0 as i64).abs();
    let sx: i64 = if x1 > x0 { 1 } else { -1 };
    let sy: i64 = if y1 > y0 { 1 } else { -1 };
    let (mut x, mut y) = (x0 as i64, y0 as i64);
    let swap = dx < dy;
    if swap {
        std::mem::swap(&mut dx, &mut dy);
    }
    let mut dev = 2 * dy - dx;
    for _ in 0..=dx {
        out.push((x as i32, y as i32));
        if dev > 0 {
            if swap { x += sx } else { y += sy }
            dev -= 2 * dx;
        }
        if swap { y += sy } else { x += sx }
        dev += 2 * dy;
    }
    out
}

#[test]
fn shallow_line() {
    assert_eq!(bresenham_points(0, 0, 4, 2), vec![(0, 0), (1, 0), (2, 1), (3, 1), (4, 2)]);
}

#[test]
fn half_pixel_rounds_toward_start() {
    // Halfway along a 2×1 line the ideal y is exactly 0.5: the pixel stays on row 0.
    assert_eq!(bresenham_points(0, 0, 2, 1), vec![(0, 0), (1, 0), (2, 1)]);
}

#[test]
fn steep_line() {
    assert_eq!(
        bresenham_points(0, 0, 2, 5),
        vec![(0, 0), (0, 1), (1, 2), (1, 3), (2, 4), (2, 5)]
    );
}

#[test]
fn single_point() {
    assert_eq!(bresenham_points(7, -3, 7, -3), vec![(7, -3)]);
}

#[test]
fn vertical_and_horizontal() {
    assert_eq!(bresenham_points(2, 5, 2, 2), vec![(2, 5), (2, 4), (2, 3), (2, 2)]);
    assert_eq!(bresenham_points(-1, 0, 2, 0), vec![(-1, 0), (0, 0), (1, 0), (2, 0)]);
}

#[test]
fn diagonal_and_backwards() {
    assert_eq!(bresenham_points(3, 3, 0, 0), vec![(3, 3), (2, 2), (1, 1), (0, 0)]);
    assert_eq!(bresenham_points(4, 0, 0, 2), vec![(4, 0), (3, 0), (2, 1), (1, 1), (0, 2)]);
}

#[test]
fn extreme_coordinates() {
    let pts = bresenham_points(i32::MAX - 2, i32::MIN, i32::MAX, i32::MIN + 1);
    assert_eq!(pts, vec![(i32::MAX - 2, i32::MIN), (i32::MAX - 1, i32::MIN), (i32::MAX, i32::MIN + 1)]);
    let pts = bresenham_points(i32::MIN, 0, i32::MIN, 3);
    assert_eq!(pts.len(), 4);
    assert_eq!(pts[3], (i32::MIN, 3));
}

#[test]
fn agrees_with_error_accumulator_on_many_lines() {
    let mut seed: u64 = 0x2545_f491_4f6c_dd1d;
    let mut next = || {
        seed ^= seed << 13;
        seed ^= seed >> 7;
        seed ^= seed << 17;
        ((seed % 61) as i32) - 30
    };
    for _ in 0..5000 {
        let (x0, y0, x1, y1) = (next(), next(), next(), next());
        assert_eq!(bresenham_points(x0, y0, x1, y1), reference(x0, y0, x1, y1), "{x0} {y0} {x1} {y1}");
    }
}

#[test]
fn ends_connected_distinct_nearest() {
    for &(x0, y0, x1, y1) in &[(0, 0, 13, 5), (5, 9, -7, 2), (-3, -3, 4, 17), (10, 0, 0, 10)] {
        let pts = bresenham_points(x0, y0, x1, y1);
        let dx = (x1 - x0).abs();
        let dy = (y1 - y0).abs();
        assert_eq!(pts.len() as i32, dx.max(dy) + 1);
        assert_eq!(pts[0], (x0, y0));
        assert_eq!(*pts.last().unwrap(), (x1, y1));
        for w in pts.windows(2) {
            let (a, b) = (w[0], w[1]);
            assert!((a.0 - b.0).abs() <= 1 && (a.1 - b.1).abs() <= 1 && a != b);
        }
        for (i, p) in pts.iter().enumerate() {
            let i = i as i64;
            let (major, minor, k) = if dy <= dx {
                (dx as i64, dy as i64, (p.1 - y0).abs() as i64)
            } else {
                (dy as i64, dx as i64, (p.0 - x0).abs() as i64)
            };
            let err = 2 * major * k - 2 * minor * i;
            assert!(-major <= err && err < major);
        }
        for i in 0..pts.len() {
            for j in i + 1..pts.len() {
                assert_ne!(pts[i], pts[j]);
            }
        }
    }
}
