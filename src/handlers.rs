//! What the service decides for each request: pixel writes pass the active
//! switch, then the throttle, then bounds and palette checks; privileged
//! changes pass the privilege check first; reads pass neither.

use vstd::prelude::*;

use crate::canvas::{valid_size, whitened, Canvas, CanvasSize};
use crate::codec::{hex_of, hex_string};
use crate::error::CanvasError;
use crate::limiter::admits;
use crate::palette::{color_index, palette_index};
use crate::state::{AppState, PixelRange, PixelRegionRequest, PixelRequest};

verus! {

/// The smaller of two coordinates.
pub open spec fn lesser(a: u32, b: u32) -> u32 {
    if a <= b {
        a
    } else {
        b
    }
}

/// The larger of two coordinates.
pub open spec fn greater(a: u32, b: u32) -> u32 {
    if a <= b {
        b
    } else {
        a
    }
}

/// Decides whether client `ip` may write at time `now` (milliseconds) under
/// the service's cooldown, recording `now` as its last admitted write when
/// it may.
pub fn is_request_allowed(ip: &String, state: &mut AppState, now: u64) -> (r: bool)
    requires
        old(state).wf(),
    ensures
        final(state).wf(),
        r == admits(old(state).ip_timestamps.last_of(ip@), now, old(state).delay),
        r ==> final(state).ip_timestamps.view() == old(state).ip_timestamps.view().insert(ip@, now),
        !r ==> *final(state) == *old(state),
        final(state).canvas == old(state).canvas,
        final(state).delay == old(state).delay,
        final(state).active == old(state).active,
{
    let delay = state.delay;
    state.ip_timestamps.is_allowed(ip, now, delay)
}

/// Handles a pixel write from client `ip` at time `now` (milliseconds):
/// refused while writes are switched off, then when the client's cooldown
/// has not run out, then when the pixel lies outside the canvas or the
/// color is not in the palette. Only the throttle check records the client.
pub fn handle_pixel_request(state: &mut AppState, ip: &String, now: u64, request: &PixelRequest) -> (r:
    Result<(), CanvasError>)
    requires
        old(state).wf(),
    ensures
        final(state).wf(),
        final(state).delay == old(state).delay,
        final(state).active == old(state).active,
        !old(state).active ==> r == Err::<(), CanvasError>(CanvasError::ServiceInactive) && *final(state) == *old(state),
        old(state).active && !admits(
            old(state).ip_timestamps.last_of(ip@),
            now,
            old(state).delay,
        ) ==> r == Err::<(), CanvasError>(CanvasError::RateLimited) && *final(state) == *old(state),
        old(state).active && admits(old(state).ip_timestamps.last_of(ip@), now, old(state).delay)
            ==> final(state).ip_timestamps.view() == old(state).ip_timestamps.view().insert(
            ip@,
            now,
        ),
        old(state).active && admits(old(state).ip_timestamps.last_of(ip@), now, old(state).delay)
            && (request.x >= old(state).canvas.width() || request.y >= old(state).canvas.height())
            ==> r == Err::<(), CanvasError>(CanvasError::OutOfBounds) && final(state).canvas == old(state).canvas,
        old(state).active && admits(old(state).ip_timestamps.last_of(ip@), now, old(state).delay)
            && request.x < old(state).canvas.width() && request.y < old(state).canvas.height()
            && palette_index(request.color@) is None ==> r == Err::<(), CanvasError>(
            CanvasError::InvalidColor,
        ) && final(state).canvas == old(state).canvas,
        old(state).active && admits(old(state).ip_timestamps.last_of(ip@), now, old(state).delay)
            && request.x < old(state).canvas.width() && request.y < old(state).canvas.height()
            && palette_index(request.color@) is Some ==> {
            &&& r is Ok
            &&& final(state).canvas.width() == old(state).canvas.width()
            &&& final(state).canvas.height() == old(state).canvas.height()
            &&& final(state).canvas.pixels() == old(state).canvas.pixels().update(
                request.y * old(state).canvas.width() + request.x,
                palette_index(request.color@)->Some_0,
            )
        },
{
    if !state.active {
        return Err(CanvasError::ServiceInactive);
    }
    if !is_request_allowed(ip, state, now) {
        return Err(CanvasError::RateLimited);
    }
    let size = state.canvas.dimensions();
    if request.x >= size.width || request.y >= size.height {
        return Err(CanvasError::OutOfBounds);
    }
    match color_index(&request.color) {
        Some(i) => state.canvas.write_pixel(request.x, request.y, i),
        None => Err(CanvasError::InvalidColor),
    }
}

/// The whole canvas as one lowercase hexadecimal digit per pixel, row-major.
pub fn get_all_pixels(state: &AppState) -> (r: String)
    requires
        state.wf(),
    ensures
        r@ == hex_of(state.canvas.pixels()),
{
    let all = state.canvas.read_all();
    hex_string(&all)
}

/// The requested rectangle as one lowercase hexadecimal digit per pixel,
/// row-major.
pub fn get_pixel_region(state: &AppState, region: &PixelRegionRequest) -> (r: Result<
    String,
    CanvasError,
>)
    requires
        state.wf(),
    ensures
        r is Ok <==> state.canvas.valid_region(
            region.x_start as int,
            region.y_start as int,
            region.x_end as int,
            region.y_end as int,
        ),
        r is Err ==> r == Err::<String, CanvasError>(CanvasError::InvalidRegion),
        r matches Ok(s) ==> s@ == hex_of(
            state.canvas.region(
                region.x_start as int,
                region.y_start as int,
                region.x_end as int,
                region.y_end as int,
            ),
        ),
{
    match state.canvas.read_region(region.x_start, region.y_start, region.x_end, region.y_end) {
        Ok(nibbles) => Ok(hex_string(&nibbles)),
        Err(e) => Err(e),
    }
}

/// Whitens the rectangle between two corners given in either order, for a
/// privileged caller; see `Canvas::whiten_area` for what is cleared.
pub fn admin_whitening(state: &mut AppState, privileged: bool, payload: &PixelRange) -> (r: Result<
    (),
    CanvasError,
>)
    requires
        old(state).wf(),
    ensures
        final(state).wf(),
        final(state).delay == old(state).delay,
        final(state).active == old(state).active,
        final(state).ip_timestamps == old(state).ip_timestamps,
        final(state).canvas.width() == old(state).canvas.width(),
        final(state).canvas.height() == old(state).canvas.height(),
        !privileged ==> r == Err::<(), CanvasError>(CanvasError::Unauthorized),
        privileged ==> (r is Ok <==> greater(payload.start.x, payload.end.x) < old(state).canvas.width() && greater(payload.start.y, payload.end.y) < old(state).canvas.height()),
        privileged && r is Err ==> r == Err::<(), CanvasError>(CanvasError::InvalidRegion),
        r is Err ==> final(state).canvas == old(state).canvas,
        r is Ok ==> forall|k: int|
            0 <= k < final(state).canvas.bytes().len() ==> #[trigger] final(state).canvas.bytes()[k]
                == if whitened(
                k,
                old(state).canvas.width() / 2,
                lesser(payload.start.x, payload.end.x) as int,
                lesser(payload.start.y, payload.end.y) as int,
                greater(payload.start.x, payload.end.x) as int,
                greater(payload.start.y, payload.end.y) as int,
            ) {
                0u8
            } else {
                old(state).canvas.bytes()[k]
            },
{
    if !privileged {
        return Err(CanvasError::Unauthorized);
    }
    let start = payload.start;
    let end = payload.end;
    let x_min = if start.x <= end.x {
        start.x
    } else {
        end.x
    };
    let y_min = if start.y <= end.y {
        start.y
    } else {
        end.y
    };
    let x_max = if start.x <= end.x {
        end.x
    } else {
        start.x
    };
    let y_max = if start.y <= end.y {
        end.y
    } else {
        start.y
    };
    state.canvas.whiten_area(x_min, y_min, x_max, y_max)
}

/// Grows the canvas for a privileged caller; see `Canvas::resize`.
pub fn update_canvas_size(state: &mut AppState, privileged: bool, payload: CanvasSize) -> (r: Result<
    (),
    CanvasError,
>)
    requires
        old(state).wf(),
    ensures
        final(state).wf(),
        final(state).delay == old(state).delay,
        final(state).active == old(state).active,
        final(state).ip_timestamps == old(state).ip_timestamps,
        !privileged ==> r == Err::<(), CanvasError>(CanvasError::Unauthorized),
        privileged && (payload.width % 2 != 0 || payload.height % 2 != 0) ==> r == Err::<
            (),
            CanvasError,
        >(CanvasError::InvalidDimensions),
        privileged && payload.width % 2 == 0 && payload.height % 2 == 0 && (payload.width < old(state).canvas.width() || payload.height < old(state).canvas.height()) ==> r == Err::<
            (),
            CanvasError,
        >(CanvasError::ShrinkNotAllowed),
        privileged && payload.width % 2 == 0 && payload.height % 2 == 0 && payload.width >= old(state).canvas.width() && payload.height >= old(state).canvas.height() ==> (r is Ok <==> valid_size(
            payload.width as int,
            payload.height as int,
        )),
        r is Err ==> final(state).canvas == old(state).canvas,
        r is Ok ==> final(state).canvas.width() == payload.width && final(state).canvas.height()
            == payload.height,
        r is Ok ==> forall|x: int, y: int|
            0 <= x < payload.width && 0 <= y < payload.height ==> #[trigger] final(state).canvas.pixel(x, y) == if x < old(state).canvas.width() && y < old(state).canvas.height() {
                old(state).canvas.pixel(x, y)
            } else {
                0u8
            },
{
    if !privileged {
        return Err(CanvasError::Unauthorized);
    }
    state.canvas.resize(payload.width, payload.height)
}

/// Switches pixel writes on or off, for a privileged caller.
pub fn update_admin_active(state: &mut AppState, privileged: bool, active: bool) -> (r: Result<
    (),
    CanvasError,
>)
    requires
        old(state).wf(),
    ensures
        final(state).wf(),
        final(state).canvas == old(state).canvas,
        final(state).delay == old(state).delay,
        final(state).ip_timestamps == old(state).ip_timestamps,
        !privileged ==> r == Err::<(), CanvasError>(CanvasError::Unauthorized) && final(state).active
            == old(state).active,
        privileged ==> r is Ok && final(state).active == active,
{
    if !privileged {
        return Err(CanvasError::Unauthorized);
    }
    state.active = active;
    Ok(())
}

/// Replaces the canvas by a blank one of the given size, for a privileged
/// caller.
pub fn admin_reset(state: &mut AppState, privileged: bool, canvas_size: CanvasSize) -> (r: Result<
    (),
    CanvasError,
>)
    requires
        old(state).wf(),
    ensures
        final(state).wf(),
        final(state).delay == old(state).delay,
        final(state).active == old(state).active,
        final(state).ip_timestamps == old(state).ip_timestamps,
        !privileged ==> r == Err::<(), CanvasError>(CanvasError::Unauthorized),
        privileged ==> (r is Ok <==> valid_size(canvas_size.width as int, canvas_size.height as int)),
        privileged && r is Err ==> r == Err::<(), CanvasError>(CanvasError::InvalidDimensions),
        r is Err ==> final(state).canvas == old(state).canvas,
        r is Ok ==> {
            &&& final(state).canvas.width() == canvas_size.width
            &&& final(state).canvas.height() == canvas_size.height
            &&& forall|k: int|
                0 <= k < final(state).canvas.bytes().len() ==> final(state).canvas.bytes()[k] == 0u8
        },
{
    if !privileged {
        return Err(CanvasError::Unauthorized);
    }
    match Canvas::new(canvas_size) {
        Ok(c) => {
            state.canvas = c;
            Ok(())
        },
        Err(e) => Err(e),
    }
}

/// Sets the cooldown, for a privileged caller. The value is taken modulo
/// 2^32, as a cast to `u32` takes it.
pub fn admin_update_delay(state: &mut AppState, privileged: bool, delay: u64) -> (r: Result<
    (),
    CanvasError,
>)
    requires
        old(state).wf(),
    ensures
        final(state).wf(),
        final(state).canvas == old(state).canvas,
        final(state).active == old(state).active,
        final(state).ip_timestamps == old(state).ip_timestamps,
        !privileged ==> r == Err::<(), CanvasError>(CanvasError::Unauthorized) && final(state).delay
            == old(state).delay,
        privileged ==> r is Ok && final(state).delay == delay % 0x1_0000_0000,
{
    if !privileged {
        return Err(CanvasError::Unauthorized);
    }
    let d = delay as u32;
    assert(d == delay % 0x1_0000_0000) by (bit_vector)
        requires
            d == delay as u32,
    ;
    state.delay = d;
    Ok(())
}

/// Current canvas dimensions.
pub fn get_canvas_size(state: &AppState) -> (r: CanvasSize)
    ensures
        r.width == state.canvas.width(),
        r.height == state.canvas.height(),
{
    state.canvas.dimensions()
}

/// Current cooldown between a client's writes, in seconds.
pub fn get_delay(state: &AppState) -> (r: u32)
    ensures
        r == state.delay,
{
    state.delay
}

/// Whether pixel writes are accepted.
pub fn get_active(state: &AppState) -> (r: bool)
    ensures
        r == state.active,
{
    state.active
}

} // verus!
