//! The mapping descriptor between a rectangular area of the source image
//! and the target rendering area in the terminal.

use vstd::prelude::*;

verus! {

/// Defines the mapping between a rectangular area of the source image
/// and the target rendering area in the terminal.
///
/// A well-formed view has positive target dimensions; the source rectangle
/// may lie partly or wholly outside the image, in which case sampling
/// falls back to black for the uncovered parts.
pub struct View {
    /// The top-left X coordinate of the view on the source image (in pixels).
    pub source_x: u32,
    /// The top-left Y coordinate of the view on the source image (in pixels).
    pub source_y: u32,
    /// The width of the view on the source image (in pixels).
    pub source_width: u32,
    /// The height of the view on the source image (in pixels).
    pub source_height: u32,
    /// The width of the target render area (in terminal columns).
    pub target_width: u32,
    /// The height of the target render area (in terminal rows).
    pub target_height: u32,
}

impl View {
    /// A view is well formed when both target dimensions are positive,
    /// so that the source-to-target ratios are defined.
    pub open spec fn wf(self) -> bool {
        self.target_width > 0 && self.target_height > 0
    }

    /// Width in source pixels of the block sampled for one cell: the ratio
    /// `source_width / target_width` rounded to the nearest integer (halves
    /// away from zero), and at least one.
    pub open spec fn block_width(self) -> int {
        vstd::math::max(
            1,
            (2 * self.source_width as int + self.target_width as int) / (2
                * self.target_width as int),
        )
    }

    /// Height in source pixels of one half-block: half the ratio
    /// `source_height / target_height`, rounded to the nearest integer
    /// (halves away from zero), and at least one. Two half-blocks stack to
    /// approximate one full row of source pixels.
    pub open spec fn half_block_height(self) -> int {
        vstd::math::max(
            1,
            (self.source_height as int + self.target_height as int) / (2
                * self.target_height as int),
        )
    }

    /// X origin in source pixels of the sample block for target column `x`.
    pub open spec fn cell_x(self, x: int) -> int {
        self.source_x + x * self.source_width as int / self.target_width as int
    }

    /// Y origin in source pixels of the top half-block for target row `y`.
    pub open spec fn top_y(self, y: int) -> int {
        self.source_y + y * self.source_height as int / self.target_height as int
    }

    /// Y origin in source pixels of the bottom half-block for target row `y`:
    /// immediately below the top half-block, so the two halves are contiguous
    /// by construction.
    pub open spec fn bottom_y(self, y: int) -> int {
        self.top_y(y) + self.half_block_height()
    }

    /// Builds a view; target dimensions of zero are coerced to one so the
    /// result is always well formed.
    pub fn new(
        source_x: u32,
        source_y: u32,
        source_width: u32,
        source_height: u32,
        target_width: u32,
        target_height: u32,
    ) -> (v: View)
        ensures
            v.wf(),
            v.source_x == source_x,
            v.source_y == source_y,
            v.source_width == source_width,
            v.source_height == source_height,
            v.target_width == if target_width == 0 { 1u32 } else { target_width },
            v.target_height == if target_height == 0 { 1u32 } else { target_height },
    {
        View {
            source_x,
            source_y,
            source_width,
            source_height,
            target_width: if target_width == 0 { 1 } else { target_width },
            target_height: if target_height == 0 { 1 } else { target_height },
        }
    }
}

} // verus!
