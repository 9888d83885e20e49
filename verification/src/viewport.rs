//! The part of the map that is on screen.

use vstd::prelude::*;

use crate::double::Double;
use crate::geo::WorldPoint;

verus! {

/// The number 1, the farthest zoom.
pub const MIN_VIEW_ZOOM_BITS: u64 = 0x3ff0_0000_0000_0000;

/// The number 12, the closest zoom.
pub const MAX_VIEW_ZOOM_BITS: u64 = 0x4028_0000_0000_0000;

/// A zoom within its bounds.
pub open spec fn bounded_zoom(zoom: Double) -> Double {
    zoom.clamped(Double { bits: MIN_VIEW_ZOOM_BITS }, Double { bits: MAX_VIEW_ZOOM_BITS })
}

pub fn bound_zoom(zoom: Double) -> (z: Double)
    ensures
        z == bounded_zoom(zoom),
{
    zoom.clamp(Double::from_bits(MIN_VIEW_ZOOM_BITS), Double::from_bits(MAX_VIEW_ZOOM_BITS))
}

/// Where the map is looked at, and how closely.
#[derive(Debug, Clone, Copy, PartialEq, Eq, Structural)]
pub struct Viewport {
    pub center: WorldPoint,
    pub zoom: Double,
}

/// Where the centre may lie.
#[derive(Debug, Clone, Copy, PartialEq, Eq, Structural)]
pub struct CentreRange {
    pub min_x: Double,
    pub max_x: Double,
    pub min_y: Double,
    pub max_y: Double,
}

impl CentreRange {
    /// Whether the range is one, and lies on the map.
    pub open spec fn on_map(self) -> bool {
        let zero = Double { bits: 0 };
        let one = Double { bits: MIN_VIEW_ZOOM_BITS };
        &&& zero.at_most(self.min_x) && self.min_x.at_most(self.max_x) && self.max_x.at_most(one)
        &&& zero.at_most(self.min_y) && self.min_y.at_most(self.max_y) && self.max_y.at_most(one)
    }

    /// A point moved into the range.
    pub open spec fn nearest(self, p: WorldPoint) -> WorldPoint {
        WorldPoint {
            x: p.x.clamped(self.min_x, self.max_x),
            y: p.y.clamped(self.min_y, self.max_y),
        }
    }

    pub fn bring_in(&self, p: WorldPoint) -> (r: WorldPoint)
        ensures
            r == self.nearest(p),
    {
        WorldPoint { x: p.x.clamp(self.min_x, self.max_x), y: p.y.clamp(self.min_y, self.max_y) }
    }
}

impl Viewport {
    /// A view of a point.
    pub fn new(center: WorldPoint, zoom: Double) -> (v: Viewport)
        ensures
            v == (Viewport { center, zoom: bounded_zoom(zoom) }),
    {
        Viewport { center, zoom: bound_zoom(zoom) }
    }

    /// Zoom to `zoom`, as far as that goes.
    pub fn zoom_to(&mut self, zoom: Double)
        ensures
            *final(self) == (Viewport { zoom: bounded_zoom(zoom), ..*old(self) }),
    {
        self.zoom = bound_zoom(zoom);
    }

    /// Move the centre to a point, as far as the range allows.
    pub fn move_to(&mut self, p: WorldPoint, range: CentreRange)
        ensures
            *final(self) == (Viewport { center: range.nearest(p), ..*old(self) }),
    {
        self.center = range.bring_in(p);
    }
}

/// Wherever the view is moved, its centre stays within its range and so on the
/// map.
pub proof fn views_stay_on_the_map(p: WorldPoint, range: CentreRange)
    requires
        range.on_map(),
        !p.x.nan() && !p.y.nan(),
    ensures
        ({
            let c = range.nearest(p);
            &&& range.min_x.at_most(c.x) && c.x.at_most(range.max_x)
            &&& range.min_y.at_most(c.y) && c.y.at_most(range.max_y)
            &&& (Double { bits: 0 }).at_most(c.x) && c.x.at_most(Double { bits: MIN_VIEW_ZOOM_BITS })
            &&& (Double { bits: 0 }).at_most(c.y) && c.y.at_most(Double { bits: MIN_VIEW_ZOOM_BITS })
        }),
{
}

/// A point in the range is not moved, and one beyond an edge is moved to that
/// edge alone.
pub proof fn points_in_range_stay(p: WorldPoint, range: CentreRange)
    requires
        range.on_map(),
    ensures
        range.min_x.at_most(p.x) && p.x.at_most(range.max_x) ==> range.nearest(p).x == p.x,
        range.min_y.at_most(p.y) && p.y.at_most(range.max_y) ==> range.nearest(p).y == p.y,
        p.x.below(range.min_x) ==> range.nearest(p).x == range.min_x,
        range.max_x.below(p.x) ==> range.nearest(p).x == range.max_x,
        p.y.below(range.min_y) ==> range.nearest(p).y == range.min_y,
        range.max_y.below(p.y) ==> range.nearest(p).y == range.max_y,
{
}

/// A zoom from 1 to 12 is taken as it is.
pub proof fn zooms_in_bounds_stay(zoom: Double)
    requires
        (Double { bits: 0x3ff0_0000_0000_0000 }).at_most(zoom),
        zoom.at_most(Double { bits: 0x4028_0000_0000_0000 }),
    ensures
        bounded_zoom(zoom) == zoom,
{
}

/// However far the zoom is turned, it stays within its bounds.
pub proof fn zooms_stay_in_bounds(zoom: Double)
    requires
        !zoom.nan(),
    ensures
        (Double { bits: MIN_VIEW_ZOOM_BITS }).at_most(bounded_zoom(zoom)),
        bounded_zoom(zoom).at_most(Double { bits: MAX_VIEW_ZOOM_BITS }),
{
    crate::double::lemma_order_of_patterns(MIN_VIEW_ZOOM_BITS, MAX_VIEW_ZOOM_BITS);
}

} // verus!
