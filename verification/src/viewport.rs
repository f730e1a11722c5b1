//! The viewport: what the screen shows of the plane, and the three questions
//! a frame asks of it. Is a region fine enough to show as one tile? Is it on
//! screen at all? Where on the screen does it go?

use crate::region::Region;
use crate::util::IMG_SIZE;
use vstd::prelude::*;

verus! {

/// The largest scale of a viewport: `2^61` fixed-point units, `512` plane
/// units, to the pixel.
pub const MAX_SCALE: u64 = 0x2000_0000_0000_0000;

/// The largest pan of a viewport along either axis, in pixels.
pub const MAX_OFFSET: i64 = 0x2000_0000_0000_0000;

/// The screen and its view of the plane.
///
/// `scale` is the fixed-point number of plane units to one pixel. `offset`
/// is the pan: the screen's center sits `offset` pixels from the pixel that
/// shows the origin of the plane.
#[derive(Clone, Copy, Debug, PartialEq, Eq)]
pub struct Viewport {
    pub width: u32,
    pub height: u32,
    pub offset: (i64, i64),
    pub scale: u64,
}

/// Where a tile goes on the screen, as exact fractions of a pixel: its
/// corner of least coordinates is at `(x_num / den, y_num / den)` and its
/// side is `side_num / den` pixels long.
#[derive(Clone, Copy, Debug, PartialEq, Eq)]
pub struct Placement {
    pub x_num: i128,
    pub y_num: i128,
    pub side_num: i64,
    pub den: u64,
}

impl Viewport {
    /// A viewport is well formed when its scale is positive and scale and
    /// offset are within their limits.
    pub open spec fn wf(self) -> bool {
        &&& 1 <= self.scale <= MAX_SCALE
        &&& -MAX_OFFSET <= self.offset.0 <= MAX_OFFSET
        &&& -MAX_OFFSET <= self.offset.1 <= MAX_OFFSET
    }

    /// Whether one tile of `region` has at least the detail the screen can
    /// show: the region's side, in pixels, is less than the side of a tile.
    pub open spec fn spec_fits_tile(self, region: Region) -> bool {
        region.side() < IMG_SIZE * self.scale
    }

    /// Whether `region`, projected onto the screen, meets the screen's
    /// rectangle, borders included.
    ///
    /// The screen spans `offset - size / 2 ..= offset + size / 2` in pixels
    /// on each axis and the region spans `start / scale ..= end / scale`;
    /// both sides of each comparison are multiplied by `2 * scale`.
    pub open spec fn spec_sees(self, region: Region) -> bool {
        let left = 2 * self.offset.0 - self.width;
        let right = 2 * self.offset.0 + self.width;
        let top = 2 * self.offset.1 - self.height;
        let bottom = 2 * self.offset.1 + self.height;
        &&& left * self.scale <= 2 * region.x_range.end
        &&& right * self.scale >= 2 * region.x_range.start
        &&& top * self.scale <= 2 * region.y_range.end
        &&& bottom * self.scale >= 2 * region.y_range.start
    }

    /// Whether the point `(x / 2, y / 2)` of the plane, given by its doubled
    /// coordinates, is on the screen, borders included.
    pub open spec fn shows(self, x: int, y: int) -> bool {
        &&& (2 * self.offset.0 - self.width) * self.scale <= x <= (2 * self.offset.0 + self.width)
            * self.scale
        &&& (2 * self.offset.1 - self.height) * self.scale <= y <= (2 * self.offset.1
            + self.height) * self.scale
    }

    /// The place of `region` on the screen: its corner at
    /// `start / scale - offset` and its side `side / scale`.
    pub open spec fn spec_placement(self, region: Region) -> Placement {
        Placement {
            x_num: (region.x_range.start - self.offset.0 * self.scale) as i128,
            y_num: (region.y_range.start - self.offset.1 * self.scale) as i128,
            side_num: region.side() as i64,
            den: self.scale,
        }
    }

    /// Builds a viewport, or nothing if the scale is zero or scale or offset
    /// are beyond their limits.
    pub fn new(width: u32, height: u32, offset: (i64, i64), scale: u64) -> (out: Option<Viewport>)
        ensures
            out is Some <==> (Viewport { width, height, offset, scale }).wf(),
            out matches Some(v) ==> v == (Viewport { width, height, offset, scale }),
    {
        if 1 <= scale && scale <= MAX_SCALE && -MAX_OFFSET <= offset.0 && offset.0 <= MAX_OFFSET
            && -MAX_OFFSET <= offset.1 && offset.1 <= MAX_OFFSET {
            Some(Viewport { width, height, offset, scale })
        } else {
            None
        }
    }

    /// Decides [`Viewport::spec_fits_tile`].
    pub fn fits_tile(&self, region: &Region) -> (out: bool)
        requires
            self.wf(),
            region.wf(),
        ensures
            out == self.spec_fits_tile(*region),
    {
        let side: i128 = (region.x_range.end as i128) - (region.x_range.start as i128);
        side < (IMG_SIZE as i128) * (self.scale as i128)
    }

    /// Decides [`Viewport::spec_sees`].
    pub fn sees(&self, region: &Region) -> (out: bool)
        requires
            self.wf(),
            region.wf(),
        ensures
            out == self.spec_sees(*region),
    {
        let scale: i128 = self.scale as i128;
        let left: i128 = 2 * (self.offset.0 as i128) - (self.width as i128);
        let right: i128 = 2 * (self.offset.0 as i128) + (self.width as i128);
        let top: i128 = 2 * (self.offset.1 as i128) - (self.height as i128);
        let bottom: i128 = 2 * (self.offset.1 as i128) + (self.height as i128);
        proof {
            lemma_edge_product(left as int, scale as int);
            lemma_edge_product(right as int, scale as int);
            lemma_edge_product(top as int, scale as int);
            lemma_edge_product(bottom as int, scale as int);
        }
        left * scale <= 2 * (region.x_range.end as i128) && right * scale >= 2 * (
        region.x_range.start as i128) && top * scale <= 2 * (region.y_range.end as i128) && bottom
            * scale >= 2 * (region.y_range.start as i128)
    }

    /// Computes [`Viewport::spec_placement`].
    pub fn placement(&self, region: &Region) -> (out: Placement)
        requires
            self.wf(),
            region.wf(),
        ensures
            out == self.spec_placement(*region),
    {
        let scale: i128 = self.scale as i128;
        proof {
            lemma_edge_product(self.offset.0 as int, scale as int);
            lemma_edge_product(self.offset.1 as int, scale as int);
        }
        Placement {
            x_num: (region.x_range.start as i128) - (self.offset.0 as i128) * scale,
            y_num: (region.y_range.start as i128) - (self.offset.1 as i128) * scale,
            side_num: region.x_range.end - region.x_range.start,
            den: self.scale,
        }
    }
}

/// A viewport sees a region exactly when the screen and the closed square of
/// the region have a point in common.
pub proof fn lemma_sees_iff_meets(view: Viewport, region: Region)
    requires
        view.wf(),
        region.wf(),
    ensures
        view.spec_sees(region) <==> exists|x: int, y: int|
            #![trigger view.shows(x, y)]
            view.shows(x, y) && 2 * region.x_range.start <= x <= 2 * region.x_range.end && 2
                * region.y_range.start <= y <= 2 * region.y_range.end,
{
    let left = (2 * view.offset.0 - view.width) * view.scale;
    let right = (2 * view.offset.0 + view.width) * view.scale;
    let top = (2 * view.offset.1 - view.height) * view.scale;
    let bottom = (2 * view.offset.1 + view.height) * view.scale;
    assert(left <= right && top <= bottom) by (nonlinear_arith)
        requires
            left == (2 * view.offset.0 - view.width) * view.scale,
            right == (2 * view.offset.0 + view.width) * view.scale,
            top == (2 * view.offset.1 - view.height) * view.scale,
            bottom == (2 * view.offset.1 + view.height) * view.scale,
            view.width >= 0,
            view.height >= 0,
            view.scale >= 1,
    ;
    if view.spec_sees(region) {
        let x = if left >= 2 * region.x_range.start {
            left
        } else {
            2 * region.x_range.start
        };
        let y = if top >= 2 * region.y_range.start {
            top
        } else {
            2 * region.y_range.start
        };
        assert(view.shows(x, y));
    }
}

/// A viewport sees every region of which it shows a point.
pub proof fn lemma_shown_point_is_seen(view: Viewport, region: Region, x: int, y: int)
    requires
        view.shows(2 * x, 2 * y),
        region.contains(x, y),
    ensures
        view.spec_sees(region),
{
}

/// The product of a screen edge and a scale stays far within 128 bits.
proof fn lemma_edge_product(edge: int, scale: int)
    requires
        -0x8000_0000_0000_0000 <= edge <= 0x8000_0000_0000_0000,
        0 <= scale <= 0x2000_0000_0000_0000,
    ensures
        -0x1000_0000_0000_0000_0000_0000_0000_0000 <= edge * scale
            <= 0x1000_0000_0000_0000_0000_0000_0000_0000,
{
    assert(-0x8000_0000_0000_0000 * 0x2000_0000_0000_0000 <= edge * scale <= 0x8000_0000_0000_0000
        * 0x2000_0000_0000_0000) by (nonlinear_arith)
        requires
            -0x8000_0000_0000_0000 <= edge <= 0x8000_0000_0000_0000,
            0 <= scale <= 0x2000_0000_0000_0000,
    ;
}

} // verus!
