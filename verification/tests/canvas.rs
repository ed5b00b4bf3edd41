use ege::draw::canvas::{Canvas, DEFAULT_BACKGROUND};
use ege::types::{LineClipAlgorithm, LineDrawAlgorithm, LoopMode};

#[test]
fn new_fills_with_background() {
    let c = Canvas::new(4, 3, Some(0x11223344));
    assert_eq!(c.len(), 12);
    assert!(!c.is_empty());
    assert_eq!(c.width, 4);
    assert_eq!(c.height, 3);
    assert_eq!(c.background_color, 0x11223344);
    assert!(c.pixels().iter().all(|&p| p == 0x11223344));
    assert_eq!(c.line_draw_algorithm, LineDrawAlgorithm::Aliased);
    assert_eq!(c.line_clip_algorithm, LineClipAlgorithm::Parametric);
}

#[test]
fn new_default_background_is_opaque_black() {
    let c = Canvas::new(2, 2, None);
    assert_eq!(DEFAULT_BACKGROUND, 0x000000FF);
    assert_eq!(c.background_color, 0x000000FF);
    assert_eq!(c.get_pixel(1, 1), Some(0x000000FF));
}

#[test]
fn empty_canvas() {
    let c = Canvas::new(0, 5, None);
    assert_eq!(c.len(), 0);
    assert!(c.is_empty());
    assert!(!c.in_bounds(0, 0));
    assert_eq!(c.get_pixel(0, 0), None);
}

#[test]
fn bounds() {
    let c = Canvas::new(3, 2, None);
    assert!(c.in_bounds(0, 0));
    assert!(c.in_bounds(2, 1));
    assert!(!c.in_bounds(3, 1));
    assert!(!c.in_bounds(2, 2));
    assert!(!c.in_bounds(-1, 0));
    assert!(!c.in_bounds(0, -1));
    assert!(c.in_bounds_x(2) && !c.in_bounds_x(3) && !c.in_bounds_x(-1));
    assert!(c.in_bounds_y(1) && !c.in_bounds_y(2) && !c.in_bounds_y(-5));
}

#[test]
fn width_beyond_i32_reads_as_negative() {
    // A width above i32::MAX has no column inside the canvas.
    let c = Canvas::new(0x8000_0000, 0, None);
    assert!(!c.in_bounds_x(0));
    assert!(!c.in_bounds_x(5));
    assert!(!c.in_bounds(0, 0));
}

#[test]
fn row_major_index_and_get_pixel() {
    let mut c = Canvas::new(4, 3, Some(0));
    assert_eq!(c.pixel_index(0, 0), 0);
    assert_eq!(c.pixel_index(3, 0), 3);
    assert_eq!(c.pixel_index(1, 2), 9);
    c.pixels_mut()[9] = 0xdeadbeef;
    assert_eq!(c.get_pixel(1, 2), Some(0xdeadbeef));
    assert_eq!(c.get_pixel(2, 1), Some(0));
    assert_eq!(c.get_pixel(4, 0), None);
    assert_eq!(c.pixels()[c.pixel_index(1, 2)], 0xdeadbeef);
}

#[test]
fn clear_overwrites_every_pixel() {
    let mut c = Canvas::new(5, 2, None);
    c.pixels_mut()[3] = 1;
    c.clear(0x1a1a2eff);
    assert_eq!(c.len(), 10);
    for y in 0..2 {
        for x in 0..5 {
            assert_eq!(c.get_pixel(x, y), Some(0x1a1a2eff));
        }
    }
    assert_eq!(c.background_color, 0x000000FF);
}

#[test]
fn resize_discards_pixels() {
    let mut c = Canvas::new(2, 2, None);
    c.clear(7);
    c.set_line_clip_algorithm(LineClipAlgorithm::RegionCode);
    c.resize(3, 4, 0x000000FF);
    assert_eq!((c.width, c.height, c.len()), (3, 4, 12));
    assert!(c.pixels().iter().all(|&p| p == 0x000000FF));
    assert_eq!(c.line_clip_algorithm, LineClipAlgorithm::RegionCode);
    c.resize(0, 4, 1);
    assert!(c.is_empty());
}

#[test]
fn algorithm_setters() {
    let mut c = Canvas::new(1, 1, None);
    c.set_line_draw_algorithm(LineDrawAlgorithm::Antialiased);
    c.set_line_clip_algorithm(LineClipAlgorithm::NoClip);
    assert_eq!(c.line_draw_algorithm, LineDrawAlgorithm::Antialiased);
    assert_eq!(c.line_clip_algorithm, LineClipAlgorithm::NoClip);
    assert_eq!(c.get_pixel(0, 0), Some(0x000000FF));
}

#[test]
fn defaults() {
    assert_eq!(LineDrawAlgorithm::default(), LineDrawAlgorithm::Aliased);
    assert_eq!(LineClipAlgorithm::default(), LineClipAlgorithm::Parametric);
    assert_eq!(LoopMode::default(), LoopMode::Vsync);
}
