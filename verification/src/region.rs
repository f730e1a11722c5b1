//! Square regions of the plane and their split into four quadrants.

use vstd::prelude::*;

verus! {

/// Half the side of the root square: 500 plane units, in fixed point.
pub const SIZE: i64 = 0x1F40_0000_0000_0000;

/// Every coordinate of a region lies within `-2^61 ..= 2^61`.
pub const COORD_LIMIT: i64 = 0x2000_0000_0000_0000;

/// The side of the smallest region of the tree, in fixed-point units.
pub const MIN_WIDTH: i64 = 125;

/// A half-open interval `start .. end` of fixed-point coordinates.
#[derive(Clone, Copy, Debug, PartialEq, Eq, Hash, Structural)]
pub struct Span {
    pub start: i64,
    pub end: i64,
}

/// An axis-aligned square: the product of two spans of equal length.
#[derive(Clone, Copy, Debug, PartialEq, Eq, Hash, Structural)]
pub struct Region {
    pub x_range: Span,
    pub y_range: Span,
}

/// The four quadrants of a region, split at its midpoint on each axis.
///
/// The upper pair has the larger `y`.
#[derive(Clone, Copy, Debug, PartialEq, Eq, Structural)]
pub struct Quadrants {
    pub top_left: Region,
    pub top_right: Region,
    pub bottom_left: Region,
    pub bottom_right: Region,
}

/// Whether `w` is `125 * 2^k` for some `k`: the sides that arise from
/// halving the root square.
pub open spec fn dyadic(w: int) -> bool
    decreases w,
{
    w == MIN_WIDTH || (w > MIN_WIDTH && w % 2 == 0 && dyadic(w / 2))
}

impl Span {
    /// The length `end - start`.
    pub open spec fn len(self) -> int {
        self.end - self.start
    }

    /// Whether `v` lies in `start .. end`.
    pub open spec fn contains(self, v: int) -> bool {
        self.start <= v < self.end
    }
}

impl Region {
    /// A region is well formed when it is a non-empty square within the
    /// coordinate limits.
    pub open spec fn wf(self) -> bool {
        &&& -COORD_LIMIT <= self.x_range.start < self.x_range.end <= COORD_LIMIT
        &&& -COORD_LIMIT <= self.y_range.start < self.y_range.end <= COORD_LIMIT
        &&& self.x_range.len() == self.y_range.len()
    }

    /// The side of the square.
    pub open spec fn side(self) -> int {
        self.x_range.len()
    }

    /// Whether the point `(x, y)` lies in the region.
    pub open spec fn contains(self, x: int, y: int) -> bool {
        self.x_range.contains(x) && self.y_range.contains(y)
    }

    /// Whether `inner` lies within this region.
    pub open spec fn covers(self, inner: Region) -> bool {
        &&& self.x_range.start <= inner.x_range.start
        &&& inner.x_range.end <= self.x_range.end
        &&& self.y_range.start <= inner.y_range.start
        &&& inner.y_range.end <= self.y_range.end
    }

    /// The square `[-500, 500) x [-500, 500)`.
    pub open spec fn spec_root() -> Region {
        Region {
            x_range: Span { start: (-SIZE) as i64, end: SIZE },
            y_range: Span { start: (-SIZE) as i64, end: SIZE },
        }
    }

    /// The quadrants of this region.
    pub open spec fn spec_quadrants(self) -> Quadrants {
        let x_center = (self.x_range.start + self.side() / 2) as i64;
        let y_center = (self.y_range.start + self.side() / 2) as i64;
        Quadrants {
            top_left: Region {
                x_range: Span { start: self.x_range.start, end: x_center },
                y_range: Span { start: y_center, end: self.y_range.end },
            },
            top_right: Region {
                x_range: Span { start: x_center, end: self.x_range.end },
                y_range: Span { start: y_center, end: self.y_range.end },
            },
            bottom_left: Region {
                x_range: Span { start: self.x_range.start, end: x_center },
                y_range: Span { start: self.y_range.start, end: y_center },
            },
            bottom_right: Region {
                x_range: Span { start: x_center, end: self.x_range.end },
                y_range: Span { start: self.y_range.start, end: y_center },
            },
        }
    }

    /// Decides [`Region::wf`].
    pub fn is_wf(&self) -> (out: bool)
        ensures
            out == self.wf(),
    {
        -COORD_LIMIT <= self.x_range.start && self.x_range.start < self.x_range.end
            && self.x_range.end <= COORD_LIMIT && -COORD_LIMIT <= self.y_range.start
            && self.y_range.start < self.y_range.end && self.y_range.end <= COORD_LIMIT
            && self.x_range.end - self.x_range.start == self.y_range.end - self.y_range.start
    }

    /// The root square, centered at the origin.
    pub fn root() -> (out: Region)
        ensures
            out == Region::spec_root(),
            out.wf(),
            dyadic(out.side()),
    {
        proof {
            lemma_root_dyadic();
        }
        Region { x_range: Span { start: -SIZE, end: SIZE }, y_range: Span { start: -SIZE, end: SIZE } }
    }

    /// The side of the square.
    pub fn width(&self) -> (w: i64)
        requires
            self.wf(),
        ensures
            w == self.side(),
            w > 0,
    {
        self.x_range.end - self.x_range.start
    }

    /// Splits the region at its midpoint on each axis.
    ///
    /// A region of odd side has no midpoint on the grid and cannot be split.
    pub fn quadrants(&self) -> (out: Quadrants)
        requires
            self.wf(),
            self.side() % 2 == 0,
        ensures
            out == self.spec_quadrants(),
            out.top_left.wf(),
            out.top_right.wf(),
            out.bottom_left.wf(),
            out.bottom_right.wf(),
            out.top_left.side() == self.side() / 2,
            out.top_right.side() == self.side() / 2,
            out.bottom_left.side() == self.side() / 2,
            out.bottom_right.side() == self.side() / 2,
    {
        let half: i64 = (self.x_range.end - self.x_range.start) / 2;
        let x_center: i64 = self.x_range.start + half;
        let y_center: i64 = self.y_range.start + half;
        Quadrants {
            top_left: Region {
                x_range: Span { start: self.x_range.start, end: x_center },
                y_range: Span { start: y_center, end: self.y_range.end },
            },
            top_right: Region {
                x_range: Span { start: x_center, end: self.x_range.end },
                y_range: Span { start: y_center, end: self.y_range.end },
            },
            bottom_left: Region {
                x_range: Span { start: self.x_range.start, end: x_center },
                y_range: Span { start: self.y_range.start, end: y_center },
            },
            bottom_right: Region {
                x_range: Span { start: x_center, end: self.x_range.end },
                y_range: Span { start: self.y_range.start, end: y_center },
            },
        }
    }
}

/// Decides [`dyadic`].
pub fn is_dyadic(w: i64) -> (out: bool)
    ensures
        out == dyadic(w as int),
{
    let mut rest: i64 = w;
    while rest > MIN_WIDTH && rest % 2 == 0
        invariant
            dyadic(rest as int) == dyadic(w as int),
        decreases rest,
    {
        rest = rest / 2;
    }
    rest == MIN_WIDTH
}

/// The side of the root square is `125 * 2^55`.
pub proof fn lemma_root_dyadic()
    ensures
        Region::spec_root().wf(),
        dyadic(Region::spec_root().side()),
{
    assert(Region::spec_root().side() == 0x3E80_0000_0000_0000);
    assert(dyadic(0x3E80_0000_0000_0000)) by {
        reveal_with_fuel(dyadic, 60);
    }
}

/// A dyadic side of at least twice the smallest is even, and its half is
/// dyadic again.
pub proof fn lemma_dyadic_halves(w: int)
    requires
        dyadic(w),
        w >= 2 * MIN_WIDTH,
    ensures
        w % 2 == 0,
        dyadic(w / 2),
        w / 2 >= MIN_WIDTH,
{
    assert(dyadic(w / 2) ==> w / 2 >= MIN_WIDTH);
}

/// The four quadrants partition their parent: each has half its side, their
/// outer corners are the parent's corners, and every point of the parent
/// lies in exactly one of them, while no other point lies in any.
pub proof fn lemma_quadrants_partition(parent: Region)
    requires
        parent.wf(),
        parent.side() % 2 == 0,
    ensures
        ({
            let q = parent.spec_quadrants();
            &&& 2 * q.top_left.side() == parent.side()
            &&& 2 * q.top_right.side() == parent.side()
            &&& 2 * q.bottom_left.side() == parent.side()
            &&& 2 * q.bottom_right.side() == parent.side()
            &&& q.top_left.wf() && q.top_right.wf() && q.bottom_left.wf() && q.bottom_right.wf()
            &&& q.bottom_left.x_range.start == parent.x_range.start
            &&& q.bottom_left.y_range.start == parent.y_range.start
            &&& q.top_left.x_range.start == parent.x_range.start
            &&& q.top_left.y_range.end == parent.y_range.end
            &&& q.bottom_right.x_range.end == parent.x_range.end
            &&& q.bottom_right.y_range.start == parent.y_range.start
            &&& q.top_right.x_range.end == parent.x_range.end
            &&& q.top_right.y_range.end == parent.y_range.end
            &&& forall|x: int, y: int|
                parent.contains(x, y) <==> q.top_left.contains(x, y) || q.top_right.contains(x, y)
                    || q.bottom_left.contains(x, y) || q.bottom_right.contains(x, y)
            &&& forall|x: int, y: int|
                !(q.top_left.contains(x, y) && q.top_right.contains(x, y)) && !(
                q.top_left.contains(x, y) && q.bottom_left.contains(x, y)) && !(
                q.top_left.contains(x, y) && q.bottom_right.contains(x, y)) && !(
                q.top_right.contains(x, y) && q.bottom_left.contains(x, y)) && !(
                q.top_right.contains(x, y) && q.bottom_right.contains(x, y)) && !(
                q.bottom_left.contains(x, y) && q.bottom_right.contains(x, y))
        }),
{
}

} // verus!
