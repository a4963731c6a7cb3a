//! Session-level pinned panes.
//!
//! A pinned pane persists across every workspace and tab of the session:
//! a sidebar on the right or a bar at the bottom. Each tab's layout renders
//! into the area the pins leave free.
use vstd::prelude::*;
use crate::layout::{Rect, spec_rect};

verus! {

/// Which edge a pinned pane claims.
#[derive(PartialEq, Eq, Structural, Clone, Copy, Debug)]
pub enum PinnedSide {
    /// Right column (sidebar).
    Right,
    /// Bottom row (horizontal bar).
    Down,
}

/// Minimum width a right-side pin may claim (its content's render floor).
pub const MIN_PIN_WIDTH: u16 = 30;
/// Maximum width a right-side pin claims.
pub const MAX_PIN_WIDTH: u16 = 90;
/// Keep at least this much of the surface for the tab layout.
pub const MIN_TAB_WIDTH: u16 = 40;
/// Minimum height for a bottom pin (content floor).
pub const MIN_PIN_HEIGHT: u16 = 5;
/// Maximum height for a bottom pin.
pub const MAX_PIN_HEIGHT: u16 = 30;
/// Keep at least this much height for the tab layout.
pub const MIN_TAB_HEIGHT: u16 = 10;

/// The (minimum, maximum) extent a pin on `side` may claim.
pub fn pin_extent_bounds(side: PinnedSide) -> (bounds: (u16, u16))
    ensures
        side == PinnedSide::Right ==> bounds == (MIN_PIN_WIDTH, MAX_PIN_WIDTH),
        side == PinnedSide::Down ==> bounds == (MIN_PIN_HEIGHT, MAX_PIN_HEIGHT),
{
    match side {
        PinnedSide::Right => (MIN_PIN_WIDTH, MAX_PIN_WIDTH),
        PinnedSide::Down => (MIN_PIN_HEIGHT, MAX_PIN_HEIGHT),
    }
}

/// Split a surface into (main_area, pin_area) for a pin of `extent`
/// columns (right) or rows (down), or `None` when the pin and a usable tab
/// area do not both fit.
pub open spec fn spec_split_for_extent(side: PinnedSide, area: Rect, extent: u16) -> Option<
    (Rect, Rect),
> {
    match side {
        PinnedSide::Right => if extent + MIN_TAB_WIDTH > area.width {
            None
        } else {
            Some(
                (
                    spec_rect(area.x, area.y, (area.width - extent) as u16, area.height),
                    spec_rect((area.x + area.width - extent) as u16, area.y, extent, area.height),
                ),
            )
        },
        PinnedSide::Down => if extent + MIN_TAB_HEIGHT > area.height {
            None
        } else {
            Some(
                (
                    spec_rect(area.x, area.y, area.width, (area.height - extent) as u16),
                    spec_rect(area.x, (area.y + area.height - extent) as u16, area.width, extent),
                ),
            )
        },
    }
}

pub fn split_for_extent(side: PinnedSide, area: Rect, extent: u16) -> (split: Option<(Rect, Rect)>)
    requires
        side == PinnedSide::Right && extent + MIN_TAB_WIDTH <= area.width ==> area.x + area.width
            <= u16::MAX,
        side == PinnedSide::Down && extent + MIN_TAB_HEIGHT <= area.height ==> area.y + area.height
            <= u16::MAX,
    ensures
        split == spec_split_for_extent(side, area, extent),
        split matches Some((main, pin)) ==> side == PinnedSide::Right ==> {
            &&& main.x == area.x && main.y == area.y && pin.y == area.y
            &&& main.width + pin.width == area.width
            &&& pin.x == main.x + main.width
            &&& main.height == pin.height
            &&& main.width >= MIN_TAB_WIDTH
        },
        split matches Some((main, pin)) ==> side == PinnedSide::Down ==> {
            &&& main.x == area.x && main.y == area.y && pin.x == area.x
            &&& main.height + pin.height == area.height
            &&& pin.y == main.y + main.height
            &&& main.width == pin.width
            &&& main.height >= MIN_TAB_HEIGHT
        },
{
    match side {
        PinnedSide::Right => {
            if extent as u32 + MIN_TAB_WIDTH as u32 > area.width as u32 {
                return None;
            }
            Some(
                (
                    Rect::new(area.x, area.y, area.width - extent, area.height),
                    Rect::new(area.x + area.width - extent, area.y, extent, area.height),
                ),
            )
        },
        PinnedSide::Down => {
            if extent as u32 + MIN_TAB_HEIGHT as u32 > area.height as u32 {
                return None;
            }
            Some(
                (
                    Rect::new(area.x, area.y, area.width, area.height - extent),
                    Rect::new(area.x, area.y + area.height - extent, area.width, extent),
                ),
            )
        },
    }
}

} // verus!
