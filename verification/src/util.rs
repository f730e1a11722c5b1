//! The tile rasterizer: every pixel of a tile is the gradient color of the
//! escape times of its samples, averaged.

use crate::color::{gradient_color, heat_to_white_stops, ColorMapper, Rgb};
use crate::escape::{complex, escape_time, evaluate};
use crate::fixed::floor_div;
use crate::pixels::{grid, image_is_rgb8, image_pixels, new_rgb8, put_pixel};
use crate::region::{Region, Span, COORD_LIMIT};
use vstd::arithmetic::div_mod::{lemma_div_is_ordered, lemma_fundamental_div_mod_converse};
use vstd::prelude::*;

verus! {

/// Pixels along each side of a tile.
pub const IMG_SIZE: u32 = 250;

/// The iteration budget of every sample.
pub const MAX_ITER: u32 = 500;

/// Samples along each side of a pixel in [`compute_img`].
pub const MULTISAMPLE_SIZE: u32 = 1;

/// Plane units per unit of the complex plane: the root square of side 1000
/// shows the complex square of side 4.
pub const PLANE_PER_UNIT: i64 = 250;

/// What a tile is computed from: the region, the constant `c`, and the three
/// sizes of the sampling.
pub struct Sampling {
    pub region: Region,
    pub complex_const: (i64, i64),
    pub resolution: u32,
    pub max_iter: u32,
    pub multisample: u32,
}

/// The fixed-point coordinate of one sample along one axis.
///
/// Sample `sub` of pixel `pixel` sits at
/// `start + (pixel + sub / multisample) / resolution * len` in the plane;
/// the result is that position in units of the complex plane, rounded down.
pub open spec fn sample_coord(span: Span, resolution: int, multisample: int, pixel: int, sub: int)
    -> int {
    (span.start * (resolution * multisample) + (pixel * multisample + sub) * span.len()) / (
    PLANE_PER_UNIT * (resolution * multisample))
}

/// A pixel as the four bytes an opaque image reads back.
pub open spec fn opaque(color: Rgb) -> (u8, u8, u8, u8) {
    (color.red, color.green, color.blue, 255u8)
}

impl Sampling {
    /// A sampling is well formed when its region is, it takes at least one
    /// sample with at least one iteration, the sum of a pixel's escape times
    /// fits 64 bits, and the tile fits a vector.
    pub open spec fn wf(self) -> bool {
        &&& self.region.wf()
        &&& self.max_iter >= 1
        &&& self.multisample >= 1
        &&& self.multisample * self.multisample * self.max_iter <= u64::MAX
        &&& 3 * self.resolution * self.resolution <= isize::MAX
    }

    /// The point of the complex plane at sample `(sx, sy)` of pixel
    /// `(px, py)`.
    pub open spec fn sample_point(self, px: int, py: int, sx: int, sy: int) -> (int, int) {
        (
            sample_coord(
                self.region.x_range,
                self.resolution as int,
                self.multisample as int,
                px,
                sx,
            ),
            sample_coord(
                self.region.y_range,
                self.resolution as int,
                self.multisample as int,
                py,
                sy,
            ),
        )
    }

    /// The escape time of one sample.
    pub open spec fn sample_count(self, px: int, py: int, sx: int, sy: int) -> nat {
        escape_time(
            self.sample_point(px, py, sx, sy),
            complex(self.complex_const),
            self.max_iter as nat,
        )
    }

    /// The escape times of the samples `(sx, 0) .. (sx, upto - 1)`, summed.
    pub open spec fn column_sum(self, px: int, py: int, sx: int, upto: nat) -> nat
        decreases upto,
    {
        if upto == 0 {
            0
        } else {
            self.column_sum(px, py, sx, (upto - 1) as nat) + self.sample_count(
                px,
                py,
                sx,
                upto - 1,
            )
        }
    }

    /// The escape times of the sample columns `0 .. upto`, summed.
    pub open spec fn grid_sum(self, px: int, py: int, upto: nat) -> nat
        decreases upto,
    {
        if upto == 0 {
            0
        } else {
            self.grid_sum(px, py, (upto - 1) as nat) + self.column_sum(
                px,
                py,
                upto - 1,
                self.multisample as nat,
            )
        }
    }

    /// The escape times of all samples of a pixel, summed.
    pub open spec fn pixel_sum(self, px: int, py: int) -> nat {
        self.grid_sum(px, py, self.multisample as nat)
    }

    /// The largest sum a pixel can have: every sample at the budget.
    pub open spec fn full_sum(self) -> int {
        self.multisample * self.multisample * self.max_iter
    }

    /// The color of a pixel: the gradient at the average escape time of its
    /// samples over the budget.
    pub open spec fn pixel_color(self, stops: Seq<Rgb>, px: int, py: int) -> Rgb {
        gradient_color(stops, self.pixel_sum(px, py) as int, self.full_sum())
    }

    /// The tile whose columns before `x`, and rows before `y` in column `x`,
    /// are colored, the rest still black.
    spec fn pixels_upto(self, stops: Seq<Rgb>, x: int, y: int) -> Map<
        (int, int),
        (u8, u8, u8, u8),
    > {
        Map::new(
            |p: (int, int)| grid(self.resolution as int, self.resolution as int).contains(p),
            |p: (int, int)|
                if p.0 < x || (p.0 == x && p.1 < y) {
                    opaque(self.pixel_color(stops, p.0, p.1))
                } else {
                    (0u8, 0u8, 0u8, 255u8)
                },
        )
    }

    /// The finished tile.
    pub open spec fn pixels(self, stops: Seq<Rgb>) -> Map<(int, int), (u8, u8, u8, u8)> {
        Map::new(
            |p: (int, int)| grid(self.resolution as int, self.resolution as int).contains(p),
            |p: (int, int)| opaque(self.pixel_color(stops, p.0, p.1)),
        )
    }

    /// A column of `upto` samples sums to at most `upto` budgets.
    pub proof fn lemma_column_sum_bound(self, px: int, py: int, sx: int, upto: nat)
        ensures
            self.column_sum(px, py, sx, upto) <= upto * self.max_iter,
        decreases upto,
    {
        if upto > 0 {
            self.lemma_column_sum_bound(px, py, sx, (upto - 1) as nat);
            crate::escape::lemma_escape_time_is_first(
                self.sample_point(px, py, sx, upto - 1),
                complex(self.complex_const),
                self.max_iter as nat,
            );
            assert((upto - 1) * self.max_iter + self.max_iter == upto * self.max_iter)
                by (nonlinear_arith);
        }
    }

    /// `upto` columns sum to at most `upto * multisample` budgets.
    pub proof fn lemma_grid_sum_bound(self, px: int, py: int, upto: nat)
        ensures
            self.grid_sum(px, py, upto) <= upto * self.multisample * self.max_iter,
        decreases upto,
    {
        if upto > 0 {
            self.lemma_grid_sum_bound(px, py, (upto - 1) as nat);
            self.lemma_column_sum_bound(px, py, upto - 1, self.multisample as nat);
            assert((upto - 1) * self.multisample * self.max_iter + self.multisample
                * self.max_iter == upto * self.multisample * self.max_iter) by (nonlinear_arith);
        }
    }

    /// With one sample per pixel the pixel's sum is the escape time of that
    /// sample, so the tile and a direct evaluation of the point agree.
    pub proof fn lemma_single_sample(self, px: int, py: int)
        requires
            self.multisample == 1,
        ensures
            self.pixel_sum(px, py) == self.sample_count(px, py, 0, 0),
    {
        reveal_with_fuel(Sampling::grid_sum, 2);
        reveal_with_fuel(Sampling::column_sum, 2);
    }
}

/// Two tiles computed from the same sampling and stops hold the same pixels.
pub proof fn lemma_rasterize_deterministic(
    first: image::DynamicImage,
    second: image::DynamicImage,
    sampling: Sampling,
    stops: Seq<Rgb>,
)
    requires
        image_pixels(first) == sampling.pixels(stops),
        image_pixels(second) == sampling.pixels(stops),
    ensures
        image_pixels(first) == image_pixels(second),
{
}

/// Computes [`sample_coord`].
fn sample_position(span: &Span, resolution: u32, multisample: u32, pixel: u32, sub: u32) -> (out:
    i64)
    requires
        -COORD_LIMIT <= span.start < span.end <= COORD_LIMIT,
        pixel < resolution,
        sub < multisample,
    ensures
        out == sample_coord(*span, resolution as int, multisample as int, pixel as int, sub as int),
{
    assert(0 < resolution * multisample <= 0xffff_ffff * 0xffff_ffff && 0 <= pixel * multisample
        && pixel * multisample + sub < resolution * multisample) by (nonlinear_arith)
        requires
            0 <= pixel < resolution <= 0xffff_ffff,
            0 <= sub < multisample <= 0xffff_ffff,
    ;
    let cells: i128 = (resolution as i128) * (multisample as i128);
    let index: i128 = (pixel as i128) * (multisample as i128) + (sub as i128);
    let len: i128 = (span.end as i128) - (span.start as i128);
    // `cells` is at most `(2^32 - 1)^2`, a coordinate at most `2^61` and a
    // length at most `2^62`: every product stays below `2^126`.
    assert(-0x2000_0000_0000_0000 * 0xffff_fffe_0000_0001 <= span.start * cells
        <= 0x2000_0000_0000_0000 * 0xffff_fffe_0000_0001 && 0 <= index * len
        <= 0xffff_fffe_0000_0001 * 0x4000_0000_0000_0000 && -0x2000_0000_0000_0000 * cells
        <= span.start * cells + index * len <= 0x2000_0000_0000_0000 * cells) by (nonlinear_arith)
        requires
            -0x2000_0000_0000_0000 <= span.start < span.end <= 0x2000_0000_0000_0000,
            len == span.end - span.start,
            0 <= index < cells <= 0xffff_fffe_0000_0001,
    ;
    let numerator: i128 = (span.start as i128) * cells + index * len;
    let divisor: i128 = (PLANE_PER_UNIT as i128) * cells;
    let quotient: i128 = floor_div(numerator, divisor);
    proof {
        let bound: int = COORD_LIMIT * divisor;
        assert(-bound <= numerator <= bound && bound == COORD_LIMIT * divisor + 0 && -bound == (
        -COORD_LIMIT) * divisor + 0) by (nonlinear_arith)
            requires
                -0x2000_0000_0000_0000 * cells <= numerator <= 0x2000_0000_0000_0000 * cells,
                divisor == 250 * cells,
                bound == 0x2000_0000_0000_0000 * divisor,
                COORD_LIMIT == 0x2000_0000_0000_0000,
                cells > 0,
        ;
        lemma_div_is_ordered(-bound, numerator as int, divisor as int);
        lemma_div_is_ordered(numerator as int, bound, divisor as int);
        lemma_fundamental_div_mod_converse(bound, divisor as int, COORD_LIMIT as int, 0);
        lemma_fundamental_div_mod_converse(-bound, divisor as int, -(COORD_LIMIT as int), 0);
    }
    quotient as i64
}

/// Sums the escape times of the samples of pixel `(px, py)`.
fn sample_sum(sampling: &Sampling, px: u32, py: u32) -> (sum: u64)
    requires
        sampling.wf(),
        px < sampling.resolution,
        py < sampling.resolution,
    ensures
        sum == sampling.pixel_sum(px as int, py as int),
        sum <= sampling.full_sum(),
{
    let multisample: u32 = sampling.multisample;
    let max_iter: u32 = sampling.max_iter;
    let mut sum: u64 = 0;
    let mut sx: u32 = 0;
    while sx < multisample
        invariant
            sampling.wf(),
            multisample == sampling.multisample,
            max_iter == sampling.max_iter,
            px < sampling.resolution,
            py < sampling.resolution,
            sx <= multisample,
            sum == sampling.grid_sum(px as int, py as int, sx as nat),
        decreases multisample - sx,
    {
        let ghost base: nat = sum as nat;
        let mut sy: u32 = 0;
        while sy < multisample
            invariant
                sampling.wf(),
                multisample == sampling.multisample,
                max_iter == sampling.max_iter,
                px < sampling.resolution,
                py < sampling.resolution,
                sx < multisample,
                sy <= multisample,
                base == sampling.grid_sum(px as int, py as int, sx as nat),
                sum == base + sampling.column_sum(px as int, py as int, sx as int, sy as nat),
            decreases multisample - sy,
        {
            let re: i64 = sample_position(
                &sampling.region.x_range,
                sampling.resolution,
                multisample,
                px,
                sx,
            );
            let im: i64 = sample_position(
                &sampling.region.y_range,
                sampling.resolution,
                multisample,
                py,
                sy,
            );
            let count: u32 = evaluate((re, im), sampling.complex_const, max_iter);
            proof {
                sampling.lemma_grid_sum_bound(px as int, py as int, sx as nat);
                sampling.lemma_column_sum_bound(px as int, py as int, sx as int, sy as nat);
                assert(sx * multisample * max_iter + sy * max_iter + max_iter <= multisample
                    * multisample * max_iter) by (nonlinear_arith)
                    requires
                        0 <= sx < multisample,
                        0 <= sy < multisample,
                        max_iter >= 0,
                ;
            }
            sum = sum + count as u64;
            sy = sy + 1;
        }
        sx = sx + 1;
    }
    proof {
        sampling.lemma_grid_sum_bound(px as int, py as int, multisample as nat);
    }
    sum
}

/// Rasterizes `region` into a tile of `resolution` by `resolution` pixels.
///
/// Each pixel takes a `multisample` by `multisample` grid of samples; each
/// sample is evaluated under the constant `c` with a budget of `max_iter`
/// iterations; the pixel's color is `mapper`'s color for the average escape
/// time over the budget.
pub fn rasterize(
    region: &Region,
    c: (i64, i64),
    resolution: u32,
    max_iter: u32,
    multisample: u32,
    mapper: &ColorMapper,
) -> (img: image::DynamicImage)
    requires
        (Sampling { region: *region, complex_const: c, resolution, max_iter, multisample }).wf(),
    ensures
        image_is_rgb8(img),
        image_pixels(img) == (Sampling {
            region: *region,
            complex_const: c,
            resolution,
            max_iter,
            multisample,
        }).pixels(mapper@),
{
    let sampling = Sampling { region: *region, complex_const: c, resolution, max_iter, multisample };
    assert(0 < multisample * multisample <= multisample * multisample * max_iter)
        by (nonlinear_arith)
        requires
            multisample >= 1,
            max_iter >= 1,
    ;
    let full: u64 = (multisample as u64) * (multisample as u64) * (max_iter as u64);
    let mut img = new_rgb8(resolution, resolution);
    assert(image_pixels(img) =~= sampling.pixels_upto(mapper@, 0, 0));
    let mut x: u32 = 0;
    while x < resolution
        invariant
            sampling.wf(),
            resolution == sampling.resolution,
            full == sampling.full_sum(),
            full > 0,
            x <= resolution,
            image_is_rgb8(img),
            image_pixels(img) == sampling.pixels_upto(mapper@, x as int, 0),
        decreases resolution - x,
    {
        let mut y: u32 = 0;
        while y < resolution
            invariant
                sampling.wf(),
                resolution == sampling.resolution,
                full == sampling.full_sum(),
                full > 0,
                x < resolution,
                y <= resolution,
                image_is_rgb8(img),
                image_pixels(img) == sampling.pixels_upto(mapper@, x as int, y as int),
            decreases resolution - y,
        {
            let sum: u64 = sample_sum(&sampling, x, y);
            let color: Rgb = mapper.color_for(sum, full);
            put_pixel(&mut img, x, y, color.red, color.green, color.blue, 255);
            assert(image_pixels(img) =~= sampling.pixels_upto(mapper@, x as int, y + 1));
            y = y + 1;
        }
        assert(sampling.pixels_upto(mapper@, x as int, resolution as int)
            =~= sampling.pixels_upto(mapper@, x + 1, 0));
        x = x + 1;
    }
    assert(sampling.pixels_upto(mapper@, resolution as int, 0) =~= sampling.pixels(mapper@));
    img
}

/// Rasterizes the square `x_range` by `y_range` with the standard tile size
/// and budget, one sample per pixel, and white for points that never escape.
pub fn compute_img(x_range: Span, y_range: Span, complex_const: (i64, i64)) -> (img:
    image::DynamicImage)
    requires
        (Region { x_range, y_range }).wf(),
    ensures
        image_is_rgb8(img),
        image_pixels(img) == (Sampling {
            region: Region { x_range, y_range },
            complex_const,
            resolution: IMG_SIZE,
            max_iter: MAX_ITER,
            multisample: MULTISAMPLE_SIZE,
        }).pixels(heat_to_white_stops()),
{
    let region = Region { x_range, y_range };
    let mapper = ColorMapper::heat_to_white();
    rasterize(&region, complex_const, IMG_SIZE, MAX_ITER, MULTISAMPLE_SIZE, &mapper)
}

} // verus!
