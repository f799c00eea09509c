//! Viewport state: zoom factor and scroll offset over a source image, with
//! clamping to the image bounds and to a minimum zoom.
//!
//! The zoom factor is a fixed-point number counted in `ZOOM_SCALE`-ths:
//! a stored value of `ZOOM_SCALE` means one source pixel per terminal
//! character, and the floor `ZOOM_MIN` corresponds to a factor of one
//! hundredth, below which the zoom is never allowed to fall.

use crate::view::View;
use vstd::math::min;
use vstd::prelude::*;

verus! {

/// Fixed-point units per 1.0 of zoom factor.
pub const ZOOM_SCALE: u64 = 10000;

/// The smallest permitted zoom factor, 0.01, in fixed-point units.
pub const ZOOM_MIN: u64 = 100;

/// Viewport state over one source image: the image dimensions, the top-left
/// corner of the viewport on the image, and the zoom factor.
pub struct App {
    /// Width in pixels of the image being viewed.
    pub image_width: u32,
    /// Height in pixels of the image being viewed.
    pub image_height: u32,
    /// The top-left corner of the viewport on the source image (x, y) in pixels.
    pub source_pos: (u32, u32),
    /// Zoom level in fixed-point units of `1 / ZOOM_SCALE`. Represents
    /// source pixels per terminal character; a smaller value is more zoomed in.
    pub zoom: u64,
}

/// Saturating addition of a signed delta to an unsigned coordinate: the exact
/// sum, cut off at `0` below and at `u32::MAX` above.
pub open spec fn sat_add_signed(x: u32, d: i32) -> u32 {
    let s = x as int + d as int;
    if s < 0 {
        0u32
    } else if s > u32::MAX as int {
        u32::MAX
    } else {
        s as u32
    }
}

/// Multiplying a zoom value by a fixed-point factor: the exact product scaled
/// back down (truncated), saturated at `u64::MAX`, and clamped to `ZOOM_MIN`.
pub open spec fn spec_zoom_apply(z: u64, factor: u64) -> u64 {
    let raw = (z as int) * (factor as int) / (ZOOM_SCALE as int);
    let sat = if raw > u64::MAX as int {
        u64::MAX as int
    } else {
        raw
    };
    if sat < ZOOM_MIN as int {
        ZOOM_MIN
    } else {
        sat as u64
    }
}

/// The extent in source pixels covered by `cells` terminal cells at zoom `z`:
/// `cells * z / ZOOM_SCALE`, truncated, saturated at `u32::MAX`.
pub open spec fn spec_scaled_extent(cells: u32, z: u64) -> u32 {
    let e = (cells as int) * (z as int) / (ZOOM_SCALE as int);
    if e > u32::MAX as int {
        u32::MAX
    } else {
        e as u32
    }
}

impl App {
    /// The viewport invariant: the zoom factor never falls below `ZOOM_MIN`
    /// and the viewport origin never leaves the image (it may sit on the far
    /// edge, where the visible source rectangle is empty).
    pub open spec fn wf(self) -> bool {
        &&& self.zoom >= ZOOM_MIN
        &&& self.source_pos.0 <= self.image_width
        &&& self.source_pos.1 <= self.image_height
    }

    /// Creates the viewport state for an image of the given dimensions,
    /// positioned at the top-left corner. An initial zoom below the floor is
    /// raised to it.
    pub fn new(image_width: u32, image_height: u32, initial_zoom: u64) -> (app: App)
        ensures
            app.image_width == image_width,
            app.image_height == image_height,
            app.source_pos == (0u32, 0u32),
            app.zoom == if initial_zoom < ZOOM_MIN {
                ZOOM_MIN
            } else {
                initial_zoom
            },
            app.wf(),
    {
        App {
            image_width,
            image_height,
            source_pos: (0, 0),
            zoom: if initial_zoom < ZOOM_MIN {
                ZOOM_MIN
            } else {
                initial_zoom
            },
        }
    }

    /// Adjusts the zoom level by a fixed-point factor (`ZOOM_SCALE` means
    /// unchanged). The result is clamped so it never falls below `ZOOM_MIN`,
    /// no matter how small the factor or how often a shrinking factor is
    /// applied; afterwards the viewport origin is re-clamped to the image.
    pub fn zoom(&mut self, factor: u64)
        ensures
            final(self).zoom == spec_zoom_apply(old(self).zoom, factor),
            final(self).zoom >= ZOOM_MIN,
            final(self).source_pos.0 == min(
                old(self).source_pos.0 as int,
                old(self).image_width as int,
            ),
            final(self).source_pos.1 == min(
                old(self).source_pos.1 as int,
                old(self).image_height as int,
            ),
            final(self).image_width == old(self).image_width,
            final(self).image_height == old(self).image_height,
            final(self).wf(),
    {
        proof {
            vstd::arithmetic::mul::lemma_mul_upper_bound(
                self.zoom as int,
                u64::MAX as int,
                factor as int,
                u64::MAX as int,
            );
            vstd::arithmetic::mul::lemma_mul_nonnegative(self.zoom as int, factor as int);
        }
        let prod: u128 = (self.zoom as u128) * (factor as u128);
        let raw128: u128 = prod / (ZOOM_SCALE as u128);
        let raw: u64 = if raw128 > u64::MAX as u128 {
            u64::MAX
        } else {
            raw128 as u64
        };
        self.zoom = if raw < ZOOM_MIN {
            ZOOM_MIN
        } else {
            raw
        };
        self.clamp_source_pos();
    }

    /// Moves the viewport on the source image by signed deltas. The addition
    /// saturates (it never wraps and never goes below zero), and the result
    /// is clamped componentwise to the image dimensions.
    pub fn scroll(&mut self, dx: i32, dy: i32)
        ensures
            final(self).source_pos.0 == min(
                sat_add_signed(old(self).source_pos.0, dx) as int,
                old(self).image_width as int,
            ),
            final(self).source_pos.1 == min(
                sat_add_signed(old(self).source_pos.1, dy) as int,
                old(self).image_height as int,
            ),
            final(self).zoom == old(self).zoom,
            final(self).image_width == old(self).image_width,
            final(self).image_height == old(self).image_height,
            final(self).source_pos.0 <= final(self).image_width,
            final(self).source_pos.1 <= final(self).image_height,
            old(self).zoom >= ZOOM_MIN ==> final(self).wf(),
    {
        let nx = Self::add_signed_saturating(self.source_pos.0, dx);
        let ny = Self::add_signed_saturating(self.source_pos.1, dy);
        self.source_pos = (nx, ny);
        self.clamp_source_pos();
    }

    /// Saturating add of a signed delta to one coordinate.
    fn add_signed_saturating(x: u32, d: i32) -> (r: u32)
        ensures
            r == sat_add_signed(x, d),
    {
        if d >= 0 {
            let du = d as u32;
            if x <= u32::MAX - du {
                x + du
            } else {
                u32::MAX
            }
        } else {
            let du = (-(d as i64)) as u32;
            if x >= du {
                x - du
            } else {
                0
            }
        }
    }

    /// Prevents the viewport origin from going out of bounds of the source
    /// image: each component is clamped to the corresponding image dimension.
    pub fn clamp_source_pos(&mut self)
        ensures
            final(self).source_pos.0 == min(
                old(self).source_pos.0 as int,
                old(self).image_width as int,
            ),
            final(self).source_pos.1 == min(
                old(self).source_pos.1 as int,
                old(self).image_height as int,
            ),
            final(self).zoom == old(self).zoom,
            final(self).image_width == old(self).image_width,
            final(self).image_height == old(self).image_height,
            final(self).source_pos.0 <= final(self).image_width,
            final(self).source_pos.1 <= final(self).image_height,
    {
        let x = if self.source_pos.0 > self.image_width {
            self.image_width
        } else {
            self.source_pos.0
        };
        let y = if self.source_pos.1 > self.image_height {
            self.image_height
        } else {
            self.source_pos.1
        };
        self.source_pos = (x, y);
    }

    /// Derives the view rendered at the current zoom and scroll for a target
    /// cell grid: the source rectangle starts at the viewport origin and
    /// covers `target * zoom / ZOOM_SCALE` source pixels in each direction.
    /// Target dimensions of zero are coerced to one.
    pub fn current_view(&self, target_width: u32, target_height: u32) -> (v: View)
        ensures
            v.wf(),
            v.source_x == self.source_pos.0,
            v.source_y == self.source_pos.1,
            v.target_width == if target_width == 0 {
                1u32
            } else {
                target_width
            },
            v.target_height == if target_height == 0 {
                1u32
            } else {
                target_height
            },
            v.source_width == spec_scaled_extent(v.target_width, self.zoom),
            v.source_height == spec_scaled_extent(v.target_height, self.zoom),
    {
        let tw = if target_width == 0 {
            1
        } else {
            target_width
        };
        let th = if target_height == 0 {
            1
        } else {
            target_height
        };
        View::new(
            self.source_pos.0,
            self.source_pos.1,
            Self::scaled_extent(tw, self.zoom),
            Self::scaled_extent(th, self.zoom),
            tw,
            th,
        )
    }

    /// The extent in source pixels covered by `cells` terminal cells at the
    /// given zoom.
    fn scaled_extent(cells: u32, z: u64) -> (e: u32)
        ensures
            e == spec_scaled_extent(cells, z),
    {
        proof {
            vstd::arithmetic::mul::lemma_mul_upper_bound(
                cells as int,
                u32::MAX as int,
                z as int,
                u64::MAX as int,
            );
            vstd::arithmetic::mul::lemma_mul_nonnegative(cells as int, z as int);
        }
        let prod: u128 = (cells as u128) * (z as u128);
        let e128: u128 = prod / (ZOOM_SCALE as u128);
        if e128 > u32::MAX as u128 {
            u32::MAX
        } else {
            e128 as u32
        }
    }
}

} // verus!
