//! The outcomes other than success that canvas operations report.

use vstd::prelude::*;

verus! {

/// Why a canvas operation did not take effect.
#[derive(Debug, Clone, Copy, PartialEq, Eq, Structural)]
pub enum CanvasError {
    /// A coordinate lies outside the current canvas.
    OutOfBounds,
    /// The color is not one of the palette's.
    InvalidColor,
    /// A rectangle is inverted or reaches past the canvas.
    InvalidRegion,
    /// A width or height is odd, or the canvas would hold more pixels than it can index.
    InvalidDimensions,
    /// A resize asked for a smaller width or height.
    ShrinkNotAllowed,
    /// The stored canvas could not be read or written.
    StorageUnavailable,
    /// The canvas could not be grown to the requested size.
    ResizeFailed,
    /// A privileged operation was asked for without privilege.
    Unauthorized,
    /// The client wrote again before its cooldown ran out.
    RateLimited,
    /// Pixel writes are switched off.
    ServiceInactive,
}

} // verus!
