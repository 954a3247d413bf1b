use datarender::{loop_step, Flow, LoopEvent};

#[test]
fn close_request_exits() {
    let a = loop_step(false, false, LoopEvent::CloseRequested);
    assert_eq!(a.flow, Flow::Exit);
    assert!(!a.draw_first && !a.draw_on_resize);
}

#[test]
fn resize_draws_and_polls() {
    let a = loop_step(true, true, LoopEvent::Resized);
    assert!(a.draw_first);
    assert!(a.draw_on_resize);
    assert_eq!(a.flow, Flow::Poll);
}

#[test]
fn other_window_event_exits_only_when_asked() {
    assert_eq!(loop_step(false, true, LoopEvent::OtherWindowEvent).flow, Flow::Exit);
    assert_eq!(loop_step(false, false, LoopEvent::OtherWindowEvent).flow, Flow::Poll);
}

#[test]
fn non_window_event_polls_even_when_exit_asked() {
    let a = loop_step(true, true, LoopEvent::Other);
    assert!(a.draw_first);
    assert!(!a.draw_on_resize);
    assert_eq!(a.flow, Flow::Poll);
}
