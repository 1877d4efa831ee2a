//! Pan/zoom camera. Works entirely in cell coordinates; `zoom` is the number
//! of screen pixels one cell occupies.

use vstd::prelude::*;
use crate::single::{Point, Single, ONE};

verus! {

#[derive(Copy, Clone, Debug, PartialEq, Eq, Structural)]
pub struct Camera {
    pub centre: Point,
    pub zoom: Single,
}

// The bits of the singles named on the right.
pub const MIN_ZOOM: u32 = 0x3e80_0000;  // 0.25
pub const MAX_ZOOM: u32 = 0x4200_0000;  // 32.0
pub const WORLD_RIGHT: u32 = 0x4580_0000;  // 4096.0
pub const WORLD_BOTTOM: u32 = 0x4500_0000;  // 2048.0
pub const WORLD_MIDDLE: u32 = 0x4500_0000;  // 2048.0
pub const SURFACE: u32 = 0x441b_0000;  // 620.0

impl Camera {
    /// Where a camera starts on a screen with the given scale.
    pub open spec fn start(scale_factor: Single) -> Camera {
        Camera {
            centre: Point { x: Single { bits: WORLD_MIDDLE }, y: Single { bits: SURFACE } },
            zoom: scale_factor.at_least(Single { bits: ONE }),
        }
    }

    /// The camera with another zoom, within the limits.
    pub open spec fn zoomed(self, zoom: Single) -> Camera {
        Camera {
            centre: self.centre,
            zoom: zoom.clamped(Single { bits: MIN_ZOOM }, Single { bits: MAX_ZOOM }),
        }
    }

    /// The camera brought back over the world.
    pub open spec fn over_the_world(self) -> Camera {
        let zero = Single { bits: 0 };
        Camera {
            centre: Point {
                x: self.centre.x.clamped(zero, Single { bits: WORLD_RIGHT }),
                y: self.centre.y.clamped(zero, Single { bits: WORLD_BOTTOM }),
            },
            zoom: self.zoom,
        }
    }

    /// Looks at the surface, not the middle of the rock, with at least one
    /// pixel per cell.
    pub fn new(scale_factor: Single) -> (c: Camera)
        ensures
            c.centre == (Point {
                x: Single { bits: WORLD_MIDDLE },
                y: Single { bits: SURFACE },
            }),
            c.zoom == scale_factor.at_least(Single { bits: ONE }),
            c == Camera::start(scale_factor),
    {
        Camera {
            centre: Point { x: Single { bits: WORLD_MIDDLE }, y: Single { bits: SURFACE } },
            zoom: scale_factor.max(Single { bits: ONE }),
        }
    }

    /// Sets the zoom, within its limits. Below them the filter in the fragment
    /// shader stops keeping up, and above them there is nothing left to see.
    pub fn zoom_to(&mut self, zoom: Single)
        ensures
            final(self).zoom == zoom.clamped(
                Single { bits: MIN_ZOOM },
                Single { bits: MAX_ZOOM },
            ),
            final(self).centre == old(self).centre,
            *final(self) == old(self).zoomed(zoom),
    {
        proof {
            lemma_limits();
        }
        self.zoom = zoom.clamp(Single { bits: MIN_ZOOM }, Single { bits: MAX_ZOOM });
    }

    /// Keep the view over the world. Clamping the centre rather than the edges
    /// means small worlds (or heavy zoom-out) stay centred instead of jamming
    /// into a corner.
    pub fn clamp(&mut self)
        ensures
            final(self).centre == (Point {
                x: old(self).centre.x.clamped(Single { bits: 0 }, Single { bits: WORLD_RIGHT }),
                y: old(self).centre.y.clamped(Single { bits: 0 }, Single { bits: WORLD_BOTTOM }),
            }),
            final(self).zoom == old(self).zoom,
            *final(self) == old(self).over_the_world(),
    {
        proof {
            lemma_limits();
        }
        let zero = Single { bits: 0 };
        self.centre.x = self.centre.x.clamp(zero, Single { bits: WORLD_RIGHT });
        self.centre.y = self.centre.y.clamp(zero, Single { bits: WORLD_BOTTOM });
    }
}

proof fn lemma_limits()
    ensures
        !(Single { bits: MIN_ZOOM }).exceeds(Single { bits: MAX_ZOOM }),
        !(Single { bits: 0 }).exceeds(Single { bits: WORLD_RIGHT }),
        !(Single { bits: 0 }).exceeds(Single { bits: WORLD_BOTTOM }),
{
    crate::single::lemma_magnitude_order(MIN_ZOOM as int, MAX_ZOOM as int);
    crate::single::lemma_magnitude_order(0, WORLD_RIGHT as int);
    crate::single::lemma_magnitude_order(0, WORLD_BOTTOM as int);
}

/// Clamping brings every number between its limits, leaves one that is there
/// alone, and so does nothing a second time.
pub proof fn law_clamping_settles(x: Single, lo: Single, hi: Single)
    requires
        !x.is_nan(),
        !lo.is_nan(),
        !hi.is_nan(),
        lo.value() <= hi.value(),
    ensures
        lo.value() <= x.clamped(lo, hi).value() <= hi.value(),
        lo.value() <= x.value() <= hi.value() ==> x.clamped(lo, hi) == x,
        x.clamped(lo, hi).clamped(lo, hi) == x.clamped(lo, hi),
{
}

/// A number below its range becomes the lower limit, one above it the upper
/// limit, and what is not a number stays that.
pub proof fn law_clamping_goes_to_the_nearer_limit(x: Single, lo: Single, hi: Single)
    requires
        !lo.exceeds(hi),
        !lo.is_nan(),
        !hi.is_nan(),
    ensures
        lo.exceeds(x) ==> x.clamped(lo, hi) == lo,
        x.exceeds(hi) ==> x.clamped(lo, hi) == hi,
        !lo.exceeds(x) && !x.exceeds(hi) ==> x.clamped(lo, hi) == x,
        x.is_nan() ==> x.clamped(lo, hi) == x,
        !lo.exceeds(x.clamped(lo, hi)),
        !x.clamped(lo, hi).exceeds(hi),
{
}

/// A camera starts over the surface in the middle of the world, at (2048, 620),
/// with the screen's scale as zoom but no less than one.
pub proof fn law_cameras_start_at_the_surface(scale: Single)
    ensures
        Camera::start(scale).centre.x.bits == 0x4500_0000,
        Camera::start(scale).centre.y.bits == 0x441b_0000,
        !(Single { bits: 0x3f80_0000 }).exceeds(Camera::start(scale).zoom),
        scale.exceeds(Single { bits: 0x3f80_0000 }) ==> Camera::start(scale).zoom == scale,
        !scale.exceeds(Single { bits: 0x3f80_0000 }) ==> Camera::start(scale).zoom.bits
            == 0x3f80_0000 || Camera::start(scale).zoom.value() == (Single {
            bits: 0x3f80_0000,
        }).value(),
{
}

/// Zooming never goes below 0.25 or above 32, takes any zoom in between as it is,
/// and never moves the centre.
pub proof fn law_zoom_stays_in_range(c: Camera, zoom: Single)
    ensures
        ({
            let lo = Single { bits: 0x3e80_0000 };
            let hi = Single { bits: 0x4200_0000 };
            let after = c.zoomed(zoom);
            &&& after.centre == c.centre
            &&& lo.exceeds(zoom) ==> after.zoom == lo
            &&& zoom.exceeds(hi) ==> after.zoom == hi
            &&& !lo.exceeds(zoom) && !zoom.exceeds(hi) ==> after.zoom == zoom
        }),
{
    lemma_limits();
}

/// A camera is brought back to the nearest point of the world, 4096 by 2048
/// cells, each way on its own, and keeps its zoom; one over the world stays.
pub proof fn law_camera_stays_over_the_world(c: Camera)
    ensures
        ({
            let zero = Single { bits: 0 };
            let right = Single { bits: 0x4580_0000 };
            let bottom = Single { bits: 0x4500_0000 };
            let after = c.over_the_world();
            &&& after.zoom == c.zoom
            &&& zero.exceeds(c.centre.x) ==> after.centre.x == zero
            &&& c.centre.x.exceeds(right) ==> after.centre.x == right
            &&& !zero.exceeds(c.centre.x) && !c.centre.x.exceeds(right) ==> after.centre.x
                == c.centre.x
            &&& zero.exceeds(c.centre.y) ==> after.centre.y == zero
            &&& c.centre.y.exceeds(bottom) ==> after.centre.y == bottom
            &&& !zero.exceeds(c.centre.y) && !c.centre.y.exceeds(bottom) ==> after.centre.y
                == c.centre.y
            &&& after.over_the_world() == after
        }),
{
    lemma_limits();
}

} // verus!
