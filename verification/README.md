# ege — Experimental Graphics Engine

A small CPU rasteriser: a canvas of `0xRRGGBBAA` pixels, line drawing
(Bresenham, Xiaolin Wu), line clipping (Liang-Barsky, Cohen-Sutherland) and a
windowed main loop on `winit` + `softbuffer`.

## Layout

- `src/` — the verified library (Verus).
  - `types.rs` — colour type, algorithm selectors, loop modes.
  - `draw/canvas.rs` — `Canvas`, its well-formedness (`width * height` pixels),
    construction, size queries.
  - `draw/checks.rs`, `draw/pixel.rs`, `draw/pixel_buffer.rs` — bounds,
    row-major indexing, reading and drawing pixels (opaque overwrite,
    transparent no-op, otherwise a blend handed in by the caller), clearing
    and resizing the buffer.
  - `draw/line/aliased.rs` — Bresenham's pixels with a closed-form
    specification and proofs that a line joins its ends, is 8-connected,
    visits no pixel twice and stays within half a pixel of the ideal line;
    drawing them, after a Liang-Barsky clip, through `draw_pixel`; the
    outcome of a line is unique when the blend and clipper are deterministic.
  - `draw/line/antialiased.rs` — clipping, then compositing the plots of a Wu line.
  - `draw/clipping/selector.rs`, `draw/line/selector.rs` — choosing the
    clipper and the line algorithm; `draw_line` clips, then draws.
  - `engine/loop_.rs` — the main loop's decisions: control flow per loop
    mode, answers to window events, resizing on window resize, and the pixel
    conversion for presentation.
- `app/` — the program: the window and event loop, frame timing, and every
  computation whose result is defined by `f64` arithmetic (the alpha blend,
  both clippers, the coverage of Wu plots), which the library's drawing
  functions take as arguments.
- `tests/` — tests of the library.
