use fractal_tiles::color::{ColorMapper, Rgb};
use palette::{Gradient, LinSrgb};

fn rgb(red: u8, green: u8, blue: u8) -> Rgb {
    Rgb { red, green, blue }
}

#[test]
fn endpoints_are_the_first_and_last_stop() {
    let mapper = ColorMapper::new(vec![rgb(10, 20, 30), rgb(200, 100, 50), rgb(7, 8, 9)]).unwrap();
    assert_eq!(mapper.color_for(0, 17), rgb(10, 20, 30));
    assert_eq!(mapper.color_for(17, 17), rgb(7, 8, 9));
    let two = ColorMapper::new(vec![rgb(1, 2, 3), rgb(4, 5, 6)]).unwrap();
    assert_eq!(two.color_for(0, 1), rgb(1, 2, 3));
    assert_eq!(two.color_for(1, 1), rgb(4, 5, 6));
}

#[test]
fn fewer_than_two_stops_are_refused() {
    assert!(ColorMapper::new(vec![]).is_none());
    assert!(ColorMapper::new(vec![rgb(1, 2, 3)]).is_none());
    assert!(ColorMapper::new(vec![rgb(1, 2, 3), rgb(1, 2, 3)]).is_some());
}

#[test]
fn interpolation_is_linear_and_rounds_down() {
    let mapper = ColorMapper::new(vec![rgb(0, 0, 0), rgb(255, 100, 0), rgb(255, 255, 255)]).unwrap();
    // Position 1/4 is halfway through the first of two segments.
    assert_eq!(mapper.color_for(1, 4), rgb(127, 50, 0));
    // Position 1/2 is the middle stop itself.
    assert_eq!(mapper.color_for(2, 4), rgb(255, 100, 0));
    // Position 3/4 is halfway through the second segment.
    assert_eq!(mapper.color_for(3, 4), rgb(255, 177, 127));
    // Position 1/3: two thirds of the way through the first segment.
    assert_eq!(mapper.color_for(1, 3), rgb(170, 66, 0));
}

#[test]
fn descending_channels_interpolate_downwards() {
    let mapper = ColorMapper::new(vec![rgb(255, 0, 255), rgb(255, 0, 0)]).unwrap();
    assert_eq!(mapper.color_for(1, 2), rgb(255, 0, 127));
    assert_eq!(mapper.color_for(1, 255), rgb(255, 0, 254));
}

#[test]
fn values_above_one_take_the_last_stop() {
    let mapper = ColorMapper::heat_to_white();
    assert_eq!(mapper.color_for(9, 4), rgb(255, 255, 255));
    assert_eq!(mapper.color_for(u64::MAX, 1), rgb(255, 255, 255));
}

#[test]
fn named_gradients_hold_their_stops() {
    let heat = ColorMapper::heat();
    assert_eq!(heat.len(), 4);
    assert_eq!(heat.stop(0), rgb(0, 0, 0));
    assert_eq!(heat.stop(1), rgb(0, 0, 255));
    assert_eq!(heat.stop(2), rgb(255, 0, 255));
    assert_eq!(heat.stop(3), rgb(255, 0, 0));
    let white = ColorMapper::heat_to_white();
    assert_eq!(white.len(), 5);
    assert_eq!(white.stop(4), rgb(255, 255, 255));
    assert_eq!(white.color_for(500, 500), rgb(255, 255, 255));
    assert_eq!(heat.color_for(500, 500), rgb(255, 0, 0));
}

#[test]
fn large_denominators_do_not_overflow() {
    let mapper = ColorMapper::heat_to_white();
    assert_eq!(mapper.color_for(u64::MAX, u64::MAX), rgb(255, 255, 255));
    assert_eq!(mapper.color_for(0, u64::MAX), rgb(0, 0, 0));
    // Just short of the middle stop, magenta: red is one step short of full.
    assert_eq!(mapper.color_for(u64::MAX / 2, u64::MAX), rgb(254, 0, 255));
}

#[test]
fn agrees_with_a_floating_point_gradient() {
    // Power-of-two denominators keep the floating-point arithmetic exact.
    let gradient = Gradient::new(vec![
        LinSrgb::new(0.0f64, 0.0, 0.0),
        LinSrgb::new(0.0, 0.0, 1.0),
        LinSrgb::new(1.0, 0.0, 1.0),
        LinSrgb::new(1.0, 0.0, 0.0),
        LinSrgb::new(1.0, 1.0, 1.0),
    ]);
    let mapper = ColorMapper::heat_to_white();
    let den: u64 = 1024;
    for num in 0..=den {
        let color = gradient.get(num as f64 / den as f64);
        let expected = rgb(
            (color.red * 255.0) as u8,
            (color.green * 255.0) as u8,
            (color.blue * 255.0) as u8,
        );
        assert_eq!(mapper.color_for(num, den), expected, "at {}/{}", num, den);
    }
}
