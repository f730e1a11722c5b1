use fractal_tiles::fixed::ONE;
use fractal_tiles::region::{Region, Span};
use fractal_tiles::viewport::{Placement, Viewport, MAX_OFFSET, MAX_SCALE};

fn square(x: i64, y: i64, side: i64) -> Region {
    Region { x_range: Span { start: x, end: x + side }, y_range: Span { start: y, end: y + side } }
}

fn view(width: u32, height: u32, offset: (i64, i64), scale: u64) -> Viewport {
    Viewport::new(width, height, offset, scale).unwrap()
}

#[test]
fn new_accepts_what_is_within_the_limits() {
    let v = view(1280, 720, (-3, 4), ONE as u64);
    assert_eq!(v, Viewport { width: 1280, height: 720, offset: (-3, 4), scale: ONE as u64 });
    assert!(Viewport::new(0, 0, (MAX_OFFSET, -MAX_OFFSET), MAX_SCALE).is_some());
    assert!(Viewport::new(u32::MAX, u32::MAX, (0, 0), 1).is_some());
}

#[test]
fn new_refuses_what_is_beyond_the_limits() {
    assert!(Viewport::new(1280, 720, (0, 0), 0).is_none());
    assert!(Viewport::new(1280, 720, (0, 0), MAX_SCALE + 1).is_none());
    assert!(Viewport::new(1280, 720, (MAX_OFFSET + 1, 0), 1).is_none());
    assert!(Viewport::new(1280, 720, (0, -MAX_OFFSET - 1), 1).is_none());
    assert!(Viewport::new(1280, 720, (i64::MIN, 0), 1).is_none());
}

#[test]
fn a_region_fits_one_tile_below_250_pixels() {
    let root = Region::root();
    // The root is 1000 units wide: 250 pixels at a scale of 4.
    assert!(!view(100, 100, (0, 0), 4 * ONE as u64).fits_tile(&root));
    assert!(view(100, 100, (0, 0), 4 * ONE as u64 + 1).fits_tile(&root));
    assert!(!view(100, 100, (0, 0), 4 * ONE as u64 - 1).fits_tile(&root));
    assert!(view(100, 100, (0, 0), 8 * ONE as u64).fits_tile(&root));
    assert!(!view(100, 100, (0, 0), ONE as u64).fits_tile(&root));
    assert!(!view(100, 100, (0, 0), 1).fits_tile(&square(0, 0, 250)));
    assert!(view(100, 100, (0, 0), 1).fits_tile(&square(0, 0, 249)));
}

#[test]
fn sees_what_meets_the_screen() {
    // A screen of 100 by 60 pixels around pixel (0, 0), two units per pixel:
    // it shows x in -100 ..= 100 and y in -60 ..= 60.
    let v = view(100, 60, (0, 0), 2);
    assert!(v.sees(&square(-10, -10, 20)));
    assert!(v.sees(&square(90, 50, 20)));
    assert!(v.sees(&square(100, 60, 20)));
    assert!(!v.sees(&square(101, 0, 20)));
    assert!(!v.sees(&square(0, 61, 20)));
    assert!(v.sees(&square(-120, -80, 20)));
    assert!(!v.sees(&square(-121, 0, 20)));
    assert!(!v.sees(&square(0, -81, 20)));
    assert!(v.sees(&square(-500, -500, 1000)));
}

#[test]
fn sees_follows_the_pan() {
    // The same screen panned by (1000, -1000) pixels shows x in 1900 ..= 2100
    // and y in -2060 ..= -1940.
    let v = view(100, 60, (1000, -1000), 2);
    assert!(!v.sees(&square(-10, -10, 20)));
    assert!(v.sees(&square(2000, -2000, 20)));
    assert!(v.sees(&square(2100, -1940, 20)));
    assert!(!v.sees(&square(2101, -2000, 20)));
    assert!(v.sees(&square(1880, -2000, 20)));
    assert!(!v.sees(&square(1879, -2000, 20)));
}

#[test]
fn odd_screen_sizes_are_halved_exactly() {
    // 5 pixels around 0 are -2.5 ..= 2.5; one unit per pixel.
    let v = view(5, 5, (0, 0), 1);
    assert!(v.sees(&square(2, 0, 1)));
    assert!(!v.sees(&square(3, 0, 1)));
    assert!(v.sees(&square(-3, 0, 1)));
    assert!(!v.sees(&square(-4, 0, 1)));
}

#[test]
fn placement_is_start_over_scale_minus_offset() {
    let v = view(100, 60, (7, -9), 4);
    let at = v.placement(&square(-40, 20, 16));
    // x: -40 / 4 - 7 = -17 = -68 / 4; y: 20 / 4 + 9 = 14 = 56 / 4; side: 16 / 4.
    assert_eq!(at, Placement { x_num: -68, y_num: 56, side_num: 16, den: 4 });
}

#[test]
fn placement_at_the_limits_does_not_overflow() {
    let v = view(u32::MAX, u32::MAX, (MAX_OFFSET, -MAX_OFFSET), MAX_SCALE);
    let root = Region::root();
    let at = v.placement(&root);
    let product = (MAX_OFFSET as i128) * (MAX_SCALE as i128);
    assert_eq!(at.x_num, (-500 * ONE) as i128 - product);
    assert_eq!(at.y_num, (-500 * ONE) as i128 + product);
    assert_eq!(at.side_num, 1000 * ONE);
    assert_eq!(at.den, MAX_SCALE);
    assert!(!v.sees(&root));
    assert!(v.fits_tile(&root));
}
