//! The shared state of a canvas service and the requests it answers.

use vstd::prelude::*;

use crate::canvas::{Canvas, CanvasSize};
use crate::limiter::RateLimiter;

verus! {

/// A point of the canvas.
#[derive(Debug, Clone, Copy, PartialEq, Eq, Structural)]
pub struct Pixel {
    pub x: u32,
    pub y: u32,
}

/// Two opposite corners of a rectangle, in either order.
#[derive(Debug, Clone, Copy, PartialEq, Eq, Structural)]
pub struct PixelRange {
    pub start: Pixel,
    pub end: Pixel,
}

/// A request to set one pixel to a color code of the palette.
#[derive(Debug)]
pub struct PixelRequest {
    pub x: u32,
    pub y: u32,
    pub color: String,
}

/// A request to read the inclusive rectangle `[x_start, x_end] × [y_start, y_end]`.
#[derive(Debug, Clone, Copy, PartialEq, Eq, Structural)]
pub struct PixelRegionRequest {
    pub x_start: u32,
    pub y_start: u32,
    pub x_end: u32,
    pub y_end: u32,
}

/// Everything a canvas service holds: the canvas, the cooldown between a
/// client's writes in seconds, the table of last admitted writes, and
/// whether pixel writes are accepted at all.
pub struct AppState {
    pub canvas: Canvas,
    pub delay: u32,
    pub ip_timestamps: RateLimiter,
    pub active: bool,
}

impl AppState {
    /// The canvas and the throttle table are well formed.
    pub open spec fn wf(&self) -> bool {
        &&& self.canvas.wf()
        &&& self.ip_timestamps.wf()
    }

    /// A service over `canvas` that has seen no client yet.
    pub fn new(canvas: Canvas, delay: u32, active: bool) -> (r: AppState)
        requires
            canvas.wf(),
        ensures
            r.wf(),
            r.canvas == canvas,
            r.delay == delay,
            r.active == active,
            r.ip_timestamps.view() == Map::<Seq<char>, u64>::empty(),
    {
        AppState { canvas, delay, ip_timestamps: RateLimiter::new(), active }
    }
}

} // verus!
