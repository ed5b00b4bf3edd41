use vstd::prelude::*;
use crate::draw::canvas::{filled, Canvas};
use crate::types::{ColorRGBA, LoopMode};

verus! {

/// Background a canvas gets when the window is resized: opaque black.
pub const RESIZE_BACKGROUND: ColorRGBA = 0x000000FF;

/// How the event loop waits between iterations.
#[derive(Debug, Clone, Copy, PartialEq, Eq, Structural)]
pub enum ControlFlowKind {
    /// Block until the next event (presentation paces the loop).
    Wait,
    /// Iterate continuously.
    Poll,
}

/// A window event, reduced to what the main loop acts on.
#[derive(Debug, Clone, Copy, PartialEq, Eq, Structural)]
pub enum WindowEventKind {
    CloseRequested,
    Resized { width: u32, height: u32 },
    RedrawRequested,
    Other,
}

/// What the main loop does in answer to a window event.
#[derive(Debug, Clone, Copy, PartialEq, Eq, Structural)]
pub enum EventAction {
    /// Leave the event loop.
    Exit,
    /// Hand the new size to `on_resize`.
    Resize { width: u32, height: u32 },
    /// Run the frame; then ask for the next one when `request_redraw` holds.
    Render { request_redraw: bool },
    /// Nothing to do.
    Ignore,
}

/// The control flow of the event loop: only `Vsync` lets the loop block on
/// presentation, every other mode polls.
pub fn control_flow_for(mode: LoopMode) -> (c: ControlFlowKind)
    ensures
        c == (if mode == LoopMode::Vsync {
            ControlFlowKind::Wait
        } else {
            ControlFlowKind::Poll
        }),
{
    match mode {
        LoopMode::Vsync => ControlFlowKind::Wait,
        _ => ControlFlowKind::Poll,
    }
}

/// The answer to a window event: close exits, a resize is passed on, a
/// redraw renders a frame and, except under `Vsync`, requests the next one.
pub fn window_event_action(mode: LoopMode, event: WindowEventKind) -> (a: EventAction)
    ensures
        a == (match event {
            WindowEventKind::CloseRequested => EventAction::Exit,
            WindowEventKind::Resized { width, height } => EventAction::Resize { width, height },
            WindowEventKind::RedrawRequested => EventAction::Render {
                request_redraw: mode != LoopMode::Vsync,
            },
            WindowEventKind::Other => EventAction::Ignore,
        }),
{
    match event {
        WindowEventKind::CloseRequested => EventAction::Exit,
        WindowEventKind::Resized { width, height } => EventAction::Resize { width, height },
        WindowEventKind::RedrawRequested => {
            let request_redraw = match mode {
                LoopMode::Vsync => false,
                _ => true,
            };
            EventAction::Render { request_redraw }
        },
        WindowEventKind::Other => EventAction::Ignore,
    }
}

/// Follows a window resize: a non-empty new size resizes the canvas (every
/// pixel opaque black); a size with a zero side leaves the canvas as it is.
pub fn on_resize(canvas: &mut Canvas, width: u32, height: u32)
    requires
        width * height <= u32::MAX,
    ensures
        width > 0 && height > 0 ==> {
            &&& final(canvas).wf()
            &&& final(canvas).width == width
            &&& final(canvas).height == height
            &&& final(canvas)@ == filled((width * height) as nat, RESIZE_BACKGROUND)
            &&& final(canvas).background_color == old(canvas).background_color
            &&& final(canvas).line_draw_algorithm == old(canvas).line_draw_algorithm
            &&& final(canvas).line_clip_algorithm == old(canvas).line_clip_algorithm
        },
        !(width > 0 && height > 0) ==> *final(canvas) == *old(canvas),
{
    if width > 0 && height > 0 {
        canvas.resize(width, height, RESIZE_BACKGROUND);
    }
}

/// Copies canvas pixels (`0xRRGGBBAA`) into a surface buffer that takes
/// `0x00RRGGBB`: each pixel loses its alpha byte. Only the first
/// `min(canvas.len(), surface.len())` pixels are written.
pub fn copy_to_surface(canvas_pixels: &[ColorRGBA], surface: &mut [u32])
    ensures
        final(surface)@.len() == old(surface)@.len(),
        forall|i: int|
            0 <= i < final(surface)@.len() ==> #[trigger] final(surface)@[i] == (if i
                < canvas_pixels@.len() {
                canvas_pixels@[i] >> 8u32
            } else {
                old(surface)@[i]
            }),
{
    let n = if surface.len() < canvas_pixels.len() {
        surface.len()
    } else {
        canvas_pixels.len()
    };
    let mut i: usize = 0;
    while i < n
        invariant
            n <= surface@.len(),
            n <= canvas_pixels@.len(),
            n == surface@.len() || n == canvas_pixels@.len(),
            surface@.len() == old(surface)@.len(),
            i <= n,
            forall|j: int| 0 <= j < i ==> #[trigger] surface@[j] == canvas_pixels@[j] >> 8u32,
            forall|j: int| i <= j < surface@.len() ==> #[trigger] surface@[j] == old(surface)@[j],
        decreases n - i,
    {
        surface[i] = canvas_pixels[i] >> 8;
        i = i + 1;
    }
}

} // verus!
