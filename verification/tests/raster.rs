use fractal_tiles::color::{ColorMapper, Rgb};
use fractal_tiles::escape::evaluate;
use fractal_tiles::fixed::ONE;
use fractal_tiles::fractal::{render_tile, TileKey};
use fractal_tiles::region::{Region, Span};
use fractal_tiles::util::{compute_img, rasterize, IMG_SIZE, MAX_ITER, MULTISAMPLE_SIZE};
use image::GenericImageView;

fn fx(value: f64) -> i64 {
    (value * ONE as f64).floor() as i64
}

fn pixel(img: &image::DynamicImage, x: u32, y: u32) -> (Rgb, u8) {
    let p = img.get_pixel(x, y);
    (Rgb { red: p.0[0], green: p.0[1], blue: p.0[2] }, p.0[3])
}

fn coord(span: Span, resolution: u32, multisample: u32, pixel: u32, sub: u32) -> i64 {
    let cells = resolution as i128 * multisample as i128;
    let index = pixel as i128 * multisample as i128 + sub as i128;
    let len = span.end as i128 - span.start as i128;
    let numerator = span.start as i128 * cells + index * len;
    numerator.div_euclid(250 * cells) as i64
}

#[test]
fn constants_are_the_standard_tile() {
    assert_eq!(IMG_SIZE, 250);
    assert_eq!(MAX_ITER, 500);
    assert_eq!(MULTISAMPLE_SIZE, 1);
    assert_eq!(fractal_tiles::fractal::MULTISAMPLE_SIZE, 2);
}

#[test]
fn center_pixel_of_the_root_agrees_with_the_origin() {
    let c = (fx(-0.5), fx(0.3));
    let root = Region::root();
    let img = compute_img(root.x_range, root.y_range, c);
    assert_eq!(img.dimensions(), (250, 250));
    assert!(img.as_rgb8().is_some());
    let count = evaluate((0, 0), c, 500);
    let expected = ColorMapper::heat_to_white().color_for(count as u64, 500);
    assert_eq!(pixel(&img, 125, 125), (expected, 255));
    // The corner of the root is the point -2 - 2i, outside the circle.
    assert_eq!(evaluate((-2 * ONE, -2 * ONE), c, 500), 0);
    assert_eq!(pixel(&img, 0, 0), (Rgb { red: 0, green: 0, blue: 0 }, 255));
}

#[test]
fn points_that_never_escape_come_out_white() {
    // Under c = 0 the closed unit disk never escapes.
    let root = Region::root();
    let img = compute_img(root.x_range, root.y_range, (0, 0));
    assert_eq!(evaluate((0, 0), (0, 0), 500), 500);
    assert_eq!(pixel(&img, 125, 125), (Rgb { red: 255, green: 255, blue: 255 }, 255));
    // Pixel (150, 125) is the point 0.4: inside the unit disk.
    assert_eq!(pixel(&img, 150, 125), (Rgb { red: 255, green: 255, blue: 255 }, 255));
    // Pixel (249, 125) is the point 1.984, inside the circle; its square,
    // 3.94, is outside.
    assert_eq!(evaluate((coord(root.x_range, 250, 1, 249, 0), 0), (0, 0), 500), 1);
    let expected = ColorMapper::heat_to_white().color_for(1, 500);
    assert_eq!(pixel(&img, 249, 125), (expected, 255));
}

#[test]
fn rasterize_twice_gives_the_same_bytes() {
    let region = Region {
        x_range: Span { start: fx(-125.0), end: fx(0.0) },
        y_range: Span { start: fx(62.5), end: fx(187.5) },
    };
    let c = (fx(0.37), fx(-0.3));
    let mapper = ColorMapper::heat();
    let first = rasterize(&region, c, 40, 120, 2, &mapper);
    let second = rasterize(&region, c, 40, 120, 2, &mapper);
    assert_eq!(first.as_bytes(), second.as_bytes());
    assert_eq!(first.as_bytes().len(), 40 * 40 * 3);
    assert!(first.as_bytes().iter().any(|b| *b != 0));
}

#[test]
fn every_pixel_is_the_color_of_its_averaged_samples() {
    let region = Region {
        x_range: Span { start: fx(-250.0), end: fx(250.0) },
        y_range: Span { start: fx(-125.0), end: fx(375.0) },
    };
    let c = (fx(0.37), fx(-0.3));
    let mapper = ColorMapper::heat_to_white();
    let (resolution, max_iter, multisample) = (9u32, 60u32, 3u32);
    let img = rasterize(&region, c, resolution, max_iter, multisample, &mapper);
    assert_eq!(img.dimensions(), (9, 9));
    let mut distinct = std::collections::HashSet::new();
    for px in 0..resolution {
        for py in 0..resolution {
            let mut sum = 0u64;
            for sx in 0..multisample {
                for sy in 0..multisample {
                    let re = coord(region.x_range, resolution, multisample, px, sx);
                    let im = coord(region.y_range, resolution, multisample, py, sy);
                    sum += evaluate((re, im), c, max_iter) as u64;
                }
            }
            let expected = mapper.color_for(sum, 9 * 60);
            assert_eq!(pixel(&img, px, py), (expected, 255), "at ({}, {})", px, py);
            distinct.insert((expected.red, expected.green, expected.blue));
        }
    }
    assert!(distinct.len() > 3);
}

#[test]
fn sample_positions_round_down_on_both_sides_of_the_origin() {
    // One pixel, one sample, on a region of side 1000 units starting at -1
    // and at 0: the sample at the start is -1/250 rounded down, and 0.
    assert_eq!(coord(Span { start: -1, end: 999 }, 1, 1, 0, 0), -1);
    let mapper = ColorMapper::heat_to_white();
    let left = Region { x_range: Span { start: -1, end: 999 }, y_range: Span { start: 0, end: 1000 } };
    let img = rasterize(&left, (2 * ONE, 0), 1, 10, 1, &mapper);
    // z0 = (-1, 0) in fixed point is all but 0; z1 = 2 is on the circle;
    // z2 = 6 is outside.
    assert_eq!(evaluate((-1, 0), (2 * ONE, 0), 10), 2);
    assert_eq!(pixel(&img, 0, 0), (mapper.color_for(2, 10), 255));
}

#[test]
fn an_empty_tile_has_no_pixels() {
    let mapper = ColorMapper::heat();
    let img = rasterize(&Region::root(), (0, 0), 0, 500, 2, &mapper);
    assert_eq!(img.dimensions(), (0, 0));
    assert!(img.as_bytes().is_empty());
}

#[test]
fn a_tile_on_screen_takes_four_samples_and_ends_in_red() {
    let key = TileKey { complex_const: (0, 0), region: Region::root() };
    let img = render_tile(&key);
    assert_eq!(img.dimensions(), (250, 250));
    let mapper = ColorMapper::heat();
    // All four samples of the center pixel lie in the unit disk.
    assert_eq!(pixel(&img, 125, 125), (Rgb { red: 255, green: 0, blue: 0 }, 255));
    // Pixel (188, 125) straddles the unit circle: its samples at 1.008 and
    // 1.016 escape, slowly.
    let mut sum = 0u64;
    for sx in 0..2 {
        for sy in 0..2 {
            let re = coord(key.region.x_range, 250, 2, 188, sx);
            let im = coord(key.region.y_range, 250, 2, 125, sy);
            sum += evaluate((re, im), (0, 0), 500) as u64;
        }
    }
    assert_eq!(pixel(&img, 188, 125), (mapper.color_for(sum, 4 * 500), 255));
    assert!(sum < 4 * 500);
}
