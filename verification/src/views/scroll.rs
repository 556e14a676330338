//! Scrolling a page while a task is dragged near one of its edges.

use vstd::prelude::*;

verus! {

/// Which way a page scrolls while a task is dragged at `pos` pixels along a
/// side `size` pixels long: forward (`step`) within 50 pixels of the far
/// edge, back (`-step`) within 50 pixels of the near edge, else not at all.
/// Pages that scroll up and down use a step of 1, those that scroll sideways
/// a step of 2.
pub open spec fn edge_scroll_spec(size: int, pos: int, step: int) -> int {
    if size - pos < 50 {
        step
    } else if pos < 50 {
        -step
    } else {
        0
    }
}

/// The page's scroll direction while a task is dragged at `pos` (see
/// `edge_scroll_spec`), and whether scrolling starts: it does where the
/// direction is not 0 and differs from `scroll`, the direction until then.
pub fn edge_scroll(size: i32, pos: i32, scroll: i32, step: i32) -> (r: (i32, bool))
    requires
        i32::MIN <= size - pos <= i32::MAX,
        step == 1 || step == 2,
    ensures
        r.0 == edge_scroll_spec(size as int, pos as int, step as int),
        r.1 == (r.0 != 0 && r.0 != scroll),
{
    if size - pos < 50 {
        (step, scroll != step)
    } else if pos < 50 {
        (-step, scroll != -step)
    } else {
        (0, false)
    }
}

/// What a tick of scrolling does.
#[derive(Debug, PartialEq, Eq)]
pub enum ScrollStep {
    Stop,
    Down,
    Up,
    Right,
    Left,
}

/// What a tick of scrolling does in direction `scroll`: a step down (1), up
/// (-1), right (2) or left (-2), and stops for any other value.
pub fn scroll_step(scroll: i32) -> (r: ScrollStep)
    ensures
        scroll == 1 ==> r == ScrollStep::Down,
        scroll == -1 ==> r == ScrollStep::Up,
        scroll == 2 ==> r == ScrollStep::Right,
        scroll == -2 ==> r == ScrollStep::Left,
        !(scroll == 1 || scroll == -1 || scroll == 2 || scroll == -2) ==> r == ScrollStep::Stop,
{
    if scroll == 1 {
        ScrollStep::Down
    } else if scroll == -1 {
        ScrollStep::Up
    } else if scroll == 2 {
        ScrollStep::Right
    } else if scroll == -2 {
        ScrollStep::Left
    } else {
        ScrollStep::Stop
    }
}

} // verus!
