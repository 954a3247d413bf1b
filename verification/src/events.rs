use vstd::prelude::*;

verus! {

/// What the window system reports to the main loop, as far as the loop tells
/// events apart.
#[derive(Clone, Copy, Debug, PartialEq, Eq)]
pub enum LoopEvent {
    /// The window's close button was pressed.
    CloseRequested,
    /// The window was resized.
    Resized,
    /// Any other event of the window.
    OtherWindowEvent,
    /// An event that is not about the window.
    Other,
}

/// How the main loop goes on after an event.
#[derive(Clone, Copy, Debug, PartialEq, Eq)]
pub enum Flow {
    /// Keep running and wait for the next event.
    Poll,
    /// Leave the loop.
    Exit,
}

/// What the main loop does for one event: draw a frame first (when a redraw
/// is pending), draw again (after a resize), then poll on or exit.
#[derive(Clone, Copy, Debug)]
pub struct LoopAction {
    pub draw_first: bool,
    pub draw_on_resize: bool,
    pub flow: Flow,
}

/// The main loop's decision for one event: a pending redraw is drawn before
/// anything else; a resize draws once more; a close request exits, as does any
/// other window event once an exit was asked for; everything else polls on.
pub fn loop_step(redraw_pending: bool, exit_requested: bool, event: LoopEvent) -> (a: LoopAction)
    ensures
        a.draw_first == redraw_pending,
        a.draw_on_resize == (event is Resized),
        a.flow == (if event is CloseRequested || (event is OtherWindowEvent && exit_requested) {
            Flow::Exit
        } else {
            Flow::Poll
        }),
{
    let (draw_on_resize, flow) = match event {
        LoopEvent::CloseRequested => (false, Flow::Exit),
        LoopEvent::Resized => (true, Flow::Poll),
        LoopEvent::OtherWindowEvent => {
            if exit_requested {
                (false, Flow::Exit)
            } else {
                (false, Flow::Poll)
            }
        },
        LoopEvent::Other => (false, Flow::Poll),
    };
    LoopAction { draw_first: redraw_pending, draw_on_resize, flow }
}

} // verus!
