//! Plain descriptions of physical displays.

use vstd::prelude::*;

verus! {

/// The dots-per-inch value assumed for a display whose scaling could not be
/// queried.
pub const DEFAULT_DPI: u32 = 96;

/// Position and size of one display in virtual-screen coordinates, together
/// with its effective scaling.
#[derive(Clone, Copy, PartialEq, Eq, Structural, Debug)]
pub struct MonitorRect {
    pub x: i32,
    pub y: i32,
    pub width: i32,
    pub height: i32,
    pub dpi: u32,
}

/// One enumerated display: the identity the operating system reports for the
/// monitor, and its rectangle.
#[derive(Clone, Copy, PartialEq, Eq, Structural, Debug)]
pub struct MonitorSnapshot {
    pub monitor_id: i64,
    pub rect: MonitorRect,
}

/// Builds a [`MonitorRect`] from the edge coordinates the display enumeration
/// reports.  A display whose scaling query failed is recorded with
/// [`DEFAULT_DPI`].
pub fn rect_from_bounds(left: i32, top: i32, right: i32, bottom: i32, dpi_query: Option<u32>) -> (r: MonitorRect)
    requires
        i32::MIN <= right - left <= i32::MAX,
        i32::MIN <= bottom - top <= i32::MAX,
    ensures
        r.x == left,
        r.y == top,
        r.width == right - left,
        r.height == bottom - top,
        r.dpi == (match dpi_query {
            Some(d) => d,
            None => DEFAULT_DPI,
        }),
{
    let dpi = match dpi_query {
        Some(d) => d,
        None => DEFAULT_DPI,
    };
    MonitorRect { x: left, y: top, width: right - left, height: bottom - top, dpi }
}

} // verus!
