use fractal_tiles::fixed::ONE;
use fractal_tiles::region::{is_dyadic, Region, Span, COORD_LIMIT, MIN_WIDTH, SIZE};

fn square(x: i64, y: i64, side: i64) -> Region {
    Region { x_range: Span { start: x, end: x + side }, y_range: Span { start: y, end: y + side } }
}

#[test]
fn root_is_the_square_of_half_side_500() {
    let root = Region::root();
    assert_eq!(SIZE, 500 * ONE);
    assert_eq!(root.x_range, Span { start: -500 * ONE, end: 500 * ONE });
    assert_eq!(root.y_range, Span { start: -500 * ONE, end: 500 * ONE });
    assert_eq!(root.width(), 1000 * ONE);
    assert!(SIZE <= COORD_LIMIT);
}

#[test]
fn quadrants_halve_the_sides() {
    let parent = square(-40, 20, 16);
    let q = parent.quadrants();
    for child in [q.top_left, q.top_right, q.bottom_left, q.bottom_right] {
        assert_eq!(child.width(), 8);
        assert_eq!(child.y_range.end - child.y_range.start, 8);
    }
}

#[test]
fn quadrants_are_in_their_places() {
    let parent = square(-40, 20, 16);
    let q = parent.quadrants();
    assert_eq!(q.top_left, Region { x_range: Span { start: -40, end: -32 }, y_range: Span { start: 28, end: 36 } });
    assert_eq!(q.top_right, Region { x_range: Span { start: -32, end: -24 }, y_range: Span { start: 28, end: 36 } });
    assert_eq!(q.bottom_left, Region { x_range: Span { start: -40, end: -32 }, y_range: Span { start: 20, end: 28 } });
    assert_eq!(q.bottom_right, Region { x_range: Span { start: -32, end: -24 }, y_range: Span { start: 20, end: 28 } });
}

#[test]
fn quadrant_corners_rebuild_the_parent() {
    let parent = Region::root();
    let q = parent.quadrants();
    let children = [q.top_left, q.top_right, q.bottom_left, q.bottom_right];
    let min_x = children.iter().map(|c| c.x_range.start).min().unwrap();
    let max_x = children.iter().map(|c| c.x_range.end).max().unwrap();
    let min_y = children.iter().map(|c| c.y_range.start).min().unwrap();
    let max_y = children.iter().map(|c| c.y_range.end).max().unwrap();
    assert_eq!(Span { start: min_x, end: max_x }, parent.x_range);
    assert_eq!(Span { start: min_y, end: max_y }, parent.y_range);
    assert_eq!(q.top_left.x_range.end, 0);
    assert_eq!(q.top_left.y_range.start, 0);
}

#[test]
fn every_point_of_the_parent_is_in_exactly_one_quadrant() {
    let parent = square(-3, 5, 6);
    let q = parent.quadrants();
    let children = [q.top_left, q.top_right, q.bottom_left, q.bottom_right];
    for x in -5..6 {
        for y in 3..14 {
            let inside = parent.x_range.start <= x
                && x < parent.x_range.end
                && parent.y_range.start <= y
                && y < parent.y_range.end;
            let hits = children
                .iter()
                .filter(|c| {
                    c.x_range.start <= x && x < c.x_range.end && c.y_range.start <= y && y < c.y_range.end
                })
                .count();
            assert_eq!(hits, if inside { 1 } else { 0 }, "at ({}, {})", x, y);
        }
    }
}

#[test]
fn the_root_halves_down_to_the_smallest_side() {
    let mut region = Region::root();
    let mut depth = 0;
    while region.width() % 2 == 0 {
        region = region.quadrants().bottom_left;
        depth += 1;
    }
    assert_eq!(depth, 55);
    assert_eq!(region.width(), MIN_WIDTH);
    assert_eq!(region.x_range.start, -500 * ONE);
}

#[test]
fn is_wf_accepts_squares_within_the_limits() {
    assert!(Region::root().is_wf());
    assert!(square(-COORD_LIMIT, COORD_LIMIT - 1, 1).is_wf());
    assert!(square(0, 0, COORD_LIMIT).is_wf());
}

#[test]
fn is_wf_refuses_what_is_no_square_within_the_limits() {
    assert!(!square(0, 0, 0).is_wf());
    assert!(!square(0, 0, -4).is_wf());
    assert!(!square(-COORD_LIMIT - 1, 0, 4).is_wf());
    assert!(!square(COORD_LIMIT - 3, 0, 4).is_wf());
    assert!(!square(0, COORD_LIMIT, 1).is_wf());
    let oblong = Region { x_range: Span { start: 0, end: 4 }, y_range: Span { start: 0, end: 5 } };
    assert!(!oblong.is_wf());
    let extreme = Region {
        x_range: Span { start: i64::MIN, end: i64::MAX },
        y_range: Span { start: i64::MIN, end: i64::MAX },
    };
    assert!(!extreme.is_wf());
}

#[test]
fn dyadic_sides_are_125_times_a_power_of_two() {
    for k in 0..56 {
        assert!(is_dyadic(125i64 << k), "125 * 2^{}", k);
    }
    assert!(is_dyadic(1000 * ONE));
    for w in [0, 1, 2, 124, 126, 127, 128, 249, 251, 375, 1000 * ONE + 250, -125, -250, i64::MAX, i64::MIN] {
        assert!(!is_dyadic(w), "{}", w);
    }
}
