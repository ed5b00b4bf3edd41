use ege::draw::canvas::Canvas;
use ege::engine::loop_::{
    control_flow_for, copy_to_surface, on_resize, window_event_action, ControlFlowKind,
    EventAction, WindowEventKind,
};
use ege::types::LoopMode;

#[test]
fn only_vsync_waits() {
    assert_eq!(control_flow_for(LoopMode::Vsync), ControlFlowKind::Wait);
    assert_eq!(control_flow_for(LoopMode::Uncapped), ControlFlowKind::Poll);
    assert_eq!(control_flow_for(LoopMode::MaxFps(60)), ControlFlowKind::Poll);
    assert_eq!(control_flow_for(LoopMode::DeltaTime { step_ms: 16 }), ControlFlowKind::Poll);
}

#[test]
fn event_answers() {
    assert_eq!(window_event_action(LoopMode::Vsync, WindowEventKind::CloseRequested), EventAction::Exit);
    assert_eq!(
        window_event_action(LoopMode::Uncapped, WindowEventKind::Resized { width: 5, height: 0 }),
        EventAction::Resize { width: 5, height: 0 }
    );
    assert_eq!(
        window_event_action(LoopMode::Vsync, WindowEventKind::RedrawRequested),
        EventAction::Render { request_redraw: false }
    );
    assert_eq!(
        window_event_action(LoopMode::MaxFps(30), WindowEventKind::RedrawRequested),
        EventAction::Render { request_redraw: true }
    );
    assert_eq!(window_event_action(LoopMode::Vsync, WindowEventKind::Other), EventAction::Ignore);
}

#[test]
fn resize_follows_window() {
    let mut c = Canvas::new(2, 2, Some(5));
    on_resize(&mut c, 3, 1);
    assert_eq!((c.width, c.height), (3, 1));
    assert_eq!(c.pixels(), &[0x000000FF, 0x000000FF, 0x000000FF]);
    assert_eq!(c.background_color, 5);
}

#[test]
fn zero_size_is_ignored() {
    let mut c = Canvas::new(2, 2, Some(5));
    on_resize(&mut c, 0, 7);
    on_resize(&mut c, 7, 0);
    assert_eq!((c.width, c.height), (2, 2));
    assert_eq!(c.pixels(), &[5, 5, 5, 5]);
}

#[test]
fn surface_drops_alpha() {
    let src = [0x11223344u32, 0xAABBCCDD, 0x000000FF];
    let mut dst = [9u32; 5];
    copy_to_surface(&src, &mut dst);
    assert_eq!(dst, [0x00112233, 0x00AABBCC, 0x00000000, 9, 9]);
    let mut short = [0u32; 2];
    copy_to_surface(&src, &mut short);
    assert_eq!(short, [0x00112233, 0x00AABBCC]);
}
