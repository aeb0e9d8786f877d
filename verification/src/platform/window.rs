//! The size, the position and the settings of a window.

use vstd::prelude::*;

verus! {

/// The size of a window's surface, in pixels.
#[derive(Clone, Copy, Debug, PartialEq, Eq, Structural)]
pub struct WindowSize {
    pub width: usize,
    pub height: usize,
}

impl WindowSize {
    /// A size of `width` by `height` pixels.
    pub fn new(width: usize, height: usize) -> (r: Self)
        ensures
            r.width == width,
            r.height == height,
    {
        Self { width, height }
    }
}

/// The position of a window on the screen, in pixels.
#[derive(Clone, Copy, Debug, PartialEq, Eq, Structural)]
pub struct WindowPosition {
    pub x: usize,
    pub y: usize,
}

impl WindowPosition {
    /// The position `(x, y)`.
    pub fn new(x: usize, y: usize) -> (r: Self)
        ensures
            r.x == x,
            r.y == y,
    {
        Self { x, y }
    }
}

/// The settings that a window is made with, and its state from then on.
pub struct WindowAttributes {
    pub title: String,
    pub resizable: bool,
    pub maximised: bool,
    pub minimised: bool,
    pub focused: bool,
    pub fullscreen: bool,
    pub position: WindowPosition,
    pub size: WindowSize,
    pub max_size: Option<WindowSize>,
    pub min_size: Option<WindowSize>,
    pub swap_interval: usize,
    pub fps_limit: Option<usize>,
    pub grabbed_cursor: bool,
    pub visible_cursor: bool,
}

impl Default for WindowAttributes {
    /// A resizable window of 640 by 480 pixels in the corner of the screen,
    /// called "App", with a visible cursor, that swaps at every refresh and
    /// has no frame limit.
    fn default() -> (r: Self)
        ensures
            r.title@ == "App"@,
            r.resizable,
            !r.maximised,
            !r.minimised,
            !r.focused,
            !r.fullscreen,
            r.position == (WindowPosition { x: 0, y: 0 }),
            r.size == (WindowSize { width: 640, height: 480 }),
            r.max_size.is_none(),
            r.min_size.is_none(),
            r.swap_interval == 1,
            r.fps_limit.is_none(),
            !r.grabbed_cursor,
            r.visible_cursor,
    {
        Self {
            title: "App".to_owned(),
            resizable: true,
            maximised: false,
            minimised: false,
            focused: false,
            fullscreen: false,
            position: WindowPosition::new(0, 0),
            size: WindowSize::new(640, 480),
            max_size: None,
            min_size: None,
            swap_interval: 1,
            fps_limit: None,
            grabbed_cursor: false,
            visible_cursor: true,
        }
    }
}

/// What becomes of a window's state when its surface is resized: a size of
/// zero by zero means that the window was minimised and leaves the recorded
/// size alone; any other size is recorded and ends the minimised state.
pub fn resized(attributes: &mut WindowAttributes, size: WindowSize) -> (redraw: bool)
    ensures
        redraw == !(size.width == 0 && size.height == 0),
        final(attributes).minimised == !redraw,
        final(attributes).size == (if redraw {
            size
        } else {
            old(attributes).size
        }),
        final(attributes).title == old(attributes).title,
        final(attributes).resizable == old(attributes).resizable,
        final(attributes).maximised == old(attributes).maximised,
        final(attributes).focused == old(attributes).focused,
        final(attributes).fullscreen == old(attributes).fullscreen,
        final(attributes).position == old(attributes).position,
        final(attributes).max_size == old(attributes).max_size,
        final(attributes).min_size == old(attributes).min_size,
        final(attributes).swap_interval == old(attributes).swap_interval,
        final(attributes).fps_limit == old(attributes).fps_limit,
        final(attributes).grabbed_cursor == old(attributes).grabbed_cursor,
        final(attributes).visible_cursor == old(attributes).visible_cursor,
{
    if size.width == 0 && size.height == 0 {
        attributes.minimised = true;
        false
    } else {
        attributes.minimised = false;
        attributes.size = size;
        true
    }
}

} // verus!
