use fractal_tiles::fixed::ONE;
use fractal_tiles::fractal;
use fractal_tiles::fractal::{Action, FractalNode, TileKey, TileState};
use fractal_tiles::region::{Region, Span, MIN_WIDTH};
use fractal_tiles::viewport::{Placement, Viewport};

const C: (i64, i64) = (-ONE / 2, ONE / 4);

fn view(width: u32, height: u32, offset: (i64, i64), scale: u64) -> Viewport {
    Viewport::new(width, height, offset, scale).unwrap()
}

fn quiet() -> fractal::Debug {
    fractal::Debug { is_debug: false, draw_count: 0 }
}

fn frame(node: &mut FractalNode, view: &Viewport, ready: &[TileKey], debug: &mut fractal::Debug) -> (bool, Vec<Action>) {
    let mut actions = Vec::new();
    let complete = node.draw(view, &ready.to_vec(), debug, &mut actions);
    (complete, actions)
}

fn root_key() -> TileKey {
    TileKey { complex_const: C, region: Region::root() }
}

#[test]
fn a_new_tree_is_one_empty_node_on_the_root_square() {
    let node = FractalNode::new(C);
    assert_eq!(node.complex_const, C);
    assert_eq!(node.state, TileState::Empty);
    assert_eq!(node.region(), Region::root());
    assert_eq!(node.key(), root_key());
    assert!(node.sub_nodes.is_none());
}

#[test]
fn a_tile_is_asked_for_taken_and_then_painted() {
    let mut node = FractalNode::new(C);
    // At 8 units to the pixel the root is 125 pixels wide: one tile will do.
    let v = view(1280, 720, (0, 0), 8 * ONE as u64);
    let mut debug = quiet();

    let (complete, actions) = frame(&mut node, &v, &[], &mut debug);
    assert!(!complete);
    assert_eq!(actions, vec![Action::Spawn { key: root_key() }]);
    assert_eq!(node.state, TileState::Computing);

    let (complete, actions) = frame(&mut node, &v, &[], &mut debug);
    assert!(!complete);
    assert!(actions.is_empty());
    assert_eq!(node.state, TileState::Computing);

    let (complete, actions) = frame(&mut node, &v, &[root_key()], &mut debug);
    assert!(!complete);
    assert_eq!(actions, vec![Action::Store { key: root_key() }]);
    assert_eq!(node.state, TileState::Tiled);
    assert_eq!(debug.draw_count, 0);

    let (complete, actions) = frame(&mut node, &v, &[root_key()], &mut debug);
    assert!(complete);
    let at = Placement {
        x_num: (-500 * ONE) as i128,
        y_num: (-500 * ONE) as i128,
        side_num: 1000 * ONE,
        den: 8 * ONE as u64,
    };
    assert_eq!(actions, vec![Action::Tile { key: root_key(), at }]);
    assert_eq!(node.state, TileState::Tiled);
    assert_eq!(debug.draw_count, 1);
    assert!(node.sub_nodes.is_none());

    let mut loud = fractal::Debug { is_debug: true, draw_count: 41 };
    let (complete, actions) = frame(&mut node, &v, &[], &mut loud);
    assert!(complete);
    assert_eq!(
        actions,
        vec![Action::Tile { key: root_key(), at }, Action::Outline { key: root_key(), at }]
    );
    assert_eq!(loud, fractal::Debug { is_debug: true, draw_count: 42 });
}

#[test]
fn the_placement_follows_the_pan() {
    let mut node = FractalNode::new(C);
    node.state = TileState::Tiled;
    let v = view(1280, 720, (30, -20), 8 * ONE as u64);
    let (complete, actions) = frame(&mut node, &v, &[], &mut quiet());
    assert!(complete);
    let scale = 8 * ONE as i128;
    let at = Placement {
        x_num: (-500 * ONE) as i128 - 30 * scale,
        y_num: (-500 * ONE) as i128 + 20 * scale,
        side_num: 1000 * ONE,
        den: 8 * ONE as u64,
    };
    assert_eq!(actions, vec![Action::Tile { key: root_key(), at }]);
    // In pixels: the corner at -62.5 - 30 and -62.5 + 20, the side 125.
    assert_eq!(at.x_num as f64 / at.den as f64, -92.5);
    assert_eq!(at.y_num as f64 / at.den as f64, -42.5);
    assert_eq!(at.side_num as f64 / at.den as f64, 125.0);
}

#[test]
fn a_node_is_split_exactly_when_it_is_250_pixels_or_more() {
    let four = 4 * ONE as u64;
    for (scale, split) in [(four + 1, false), (four, true), (four - 1, true), (2 * four, false), (1, true)] {
        let mut node = FractalNode::new(C);
        let v = view(4, 4, (0, 0), scale);
        frame(&mut node, &v, &[], &mut quiet());
        assert_eq!(node.sub_nodes.is_some(), split, "at scale {}", scale);
    }
}

#[test]
fn children_sit_on_the_quadrants() {
    let mut node = FractalNode::new(C);
    node.generate_sub_nodes();
    let q = Region::root().quadrants();
    let kids = node.sub_nodes.as_ref().unwrap();
    assert_eq!(kids.top_left, FractalNode { complex_const: C, state: TileState::Empty, x_range: q.top_left.x_range, y_range: q.top_left.y_range, sub_nodes: None });
    assert_eq!(kids.top_right.region(), q.top_right);
    assert_eq!(kids.bottom_left.region(), q.bottom_left);
    assert_eq!(kids.bottom_right.region(), q.bottom_right);
    for kid in [&kids.top_left, &kids.top_right, &kids.bottom_left, &kids.bottom_right] {
        assert_eq!(kid.complex_const, C);
        assert_eq!(kid.state, TileState::Empty);
        assert!(kid.sub_nodes.is_none());
        assert_eq!(kid.region().width(), 500 * ONE);
    }
    assert_eq!(node.state, TileState::Empty);
    assert_eq!(node.region(), Region::root());
}

#[test]
fn a_child_off_screen_is_not_touched() {
    let mut node = FractalNode::new(C);
    // Three units to the pixel: the root is split, its children are not.
    // A screen of 50 by 50 pixels around pixel (-100, 100) shows the plane
    // from -375 to -225 in x and from 225 to 375 in y: the top left child.
    let v = view(50, 50, (-100, 100), 3 * ONE as u64);
    let mut debug = quiet();
    let (complete, actions) = frame(&mut node, &v, &[], &mut debug);
    assert!(!complete);
    let q = Region::root().quadrants();
    let top_left = TileKey { complex_const: C, region: q.top_left };
    assert_eq!(actions, vec![Action::Spawn { key: top_left }, Action::Spawn { key: root_key() }]);
    let kids = node.sub_nodes.as_ref().unwrap();
    assert_eq!(kids.top_left.state, TileState::Computing);
    assert_eq!(kids.top_right, FractalNode { complex_const: C, state: TileState::Empty, x_range: q.top_right.x_range, y_range: q.top_right.y_range, sub_nodes: None });
    assert_eq!(kids.bottom_left.state, TileState::Empty);
    assert_eq!(kids.bottom_right.state, TileState::Empty);
    assert_eq!(debug.draw_count, 0);

    // Tiles of children off screen are not taken even when they are offered.
    let offered = [
        TileKey { complex_const: C, region: q.top_right },
        TileKey { complex_const: C, region: q.bottom_left },
        TileKey { complex_const: C, region: q.bottom_right },
    ];
    let (complete, actions) = frame(&mut node, &v, &offered, &mut debug);
    assert!(!complete);
    assert!(actions.is_empty());
    let kids = node.sub_nodes.as_ref().unwrap();
    assert_eq!(kids.top_right.state, TileState::Empty);
    assert_eq!(kids.bottom_left.state, TileState::Empty);
    assert_eq!(kids.bottom_right.state, TileState::Empty);
}

#[test]
fn a_screen_edge_on_a_border_sees_both_sides() {
    let mut node = FractalNode::new(C);
    // The screen ends exactly at pixel 0, the border between the left and
    // the right children, and lies above the border between top and bottom.
    let v = view(50, 50, (-25, 100), 3 * ONE as u64);
    let (_, actions) = frame(&mut node, &v, &[], &mut quiet());
    let q = Region::root().quadrants();
    assert_eq!(
        actions,
        vec![
            Action::Spawn { key: TileKey { complex_const: C, region: q.top_left } },
            Action::Spawn { key: TileKey { complex_const: C, region: q.top_right } },
            Action::Spawn { key: root_key() },
        ]
    );
}

#[test]
fn coarse_tiles_stand_in_until_the_fine_ones_are_there() {
    let mut node = FractalNode::new(C);
    let v = view(1280, 720, (0, 0), 3 * ONE as u64);
    let q = Region::root().quadrants();
    let keys: Vec<TileKey> = [q.top_left, q.top_right, q.bottom_left, q.bottom_right]
        .iter()
        .map(|r| TileKey { complex_const: C, region: *r })
        .collect();
    let mut debug = quiet();

    let (complete, actions) = frame(&mut node, &v, &[], &mut debug);
    assert!(!complete);
    let mut expected: Vec<Action> = keys.iter().map(|k| Action::Spawn { key: *k }).collect();
    expected.push(Action::Spawn { key: root_key() });
    assert_eq!(actions, expected);

    let (complete, actions) = frame(&mut node, &v, &[root_key()], &mut debug);
    assert!(!complete);
    assert_eq!(actions, vec![Action::Store { key: root_key() }]);

    // The root's tile is kept: it is painted while the children compute,
    // and the frame is still not complete.
    let (complete, actions) = frame(&mut node, &v, &[], &mut debug);
    assert!(!complete);
    assert_eq!(actions.len(), 1);
    assert!(matches!(actions[0], Action::Tile { key, .. } if key == root_key()));
    assert_eq!(debug.draw_count, 1);

    // Two children finish: they are taken, the root stands in once more.
    let (complete, actions) = frame(&mut node, &v, &[keys[1], keys[2]], &mut debug);
    assert!(!complete);
    assert_eq!(actions.len(), 3);
    assert_eq!(actions[0], Action::Store { key: keys[1] });
    assert_eq!(actions[1], Action::Store { key: keys[2] });
    assert!(matches!(actions[2], Action::Tile { key, .. } if key == root_key()));
    assert_eq!(debug.draw_count, 2);

    // The other two finish; the first two are painted, then the root.
    let (complete, actions) = frame(&mut node, &v, &[keys[0], keys[3]], &mut debug);
    assert!(!complete);
    assert_eq!(actions.len(), 5);
    assert_eq!(actions[0], Action::Store { key: keys[0] });
    assert!(matches!(actions[1], Action::Tile { key, .. } if key == keys[1]));
    assert!(matches!(actions[2], Action::Tile { key, .. } if key == keys[2]));
    assert_eq!(actions[3], Action::Store { key: keys[3] });
    assert!(matches!(actions[4], Action::Tile { key, .. } if key == root_key()));
    assert_eq!(debug.draw_count, 5);

    // All four children are painted; nothing stands in; the frame is
    // complete.
    let mut debug = quiet();
    let (complete, actions) = frame(&mut node, &v, &[], &mut debug);
    assert!(complete);
    assert_eq!(actions.len(), 4);
    for (action, key) in actions.iter().zip(keys.iter()) {
        assert!(matches!(action, Action::Tile { key: k, .. } if k == key));
    }
    assert_eq!(debug.draw_count, 4);
    assert_eq!(node.state, TileState::Tiled);

    // Zooming out again, the root's own tile is still there.
    let far = view(1280, 720, (0, 0), 8 * ONE as u64);
    let (complete, actions) = frame(&mut node, &far, &[], &mut debug);
    assert!(complete);
    assert_eq!(actions.len(), 1);
    assert!(node.sub_nodes.is_some());
}

#[test]
fn the_counter_stops_at_its_largest_value() {
    let mut node = FractalNode::new(C);
    node.state = TileState::Tiled;
    let v = view(1280, 720, (0, 0), 8 * ONE as u64);
    let mut debug = fractal::Debug { is_debug: false, draw_count: u32::MAX - 1 };
    frame(&mut node, &v, &[], &mut debug);
    assert_eq!(debug.draw_count, u32::MAX);
    frame(&mut node, &v, &[], &mut debug);
    assert_eq!(debug.draw_count, u32::MAX);
}

#[test]
fn reset_starts_over_with_the_new_constant() {
    let mut node = FractalNode::new(C);
    let v = view(1280, 720, (0, 0), 3 * ONE as u64);
    frame(&mut node, &v, &[], &mut quiet());
    frame(&mut node, &v, &[root_key()], &mut quiet());
    assert!(node.sub_nodes.is_some());
    assert_eq!(node.state, TileState::Tiled);

    let other = (C.0 + ONE / 100, C.1);
    node.reset(other);
    assert_eq!(node, FractalNode::new(other));
    assert_eq!(node.state, TileState::Empty);
    assert!(node.sub_nodes.is_none());
}

#[test]
fn tiles_of_the_old_constant_are_not_taken_after_a_reset() {
    let mut node = FractalNode::new(C);
    let v = view(1280, 720, (0, 0), 8 * ONE as u64);
    frame(&mut node, &v, &[], &mut quiet());
    let other = (C.0, C.1 - ONE / 100);
    node.reset(other);
    let new_key = TileKey { complex_const: other, region: Region::root() };

    // The worker of the old tree finishes late: its tile is offered, and
    // is not taken.
    let (_, actions) = frame(&mut node, &v, &[root_key()], &mut quiet());
    assert_eq!(actions, vec![Action::Spawn { key: new_key }]);
    let (_, actions) = frame(&mut node, &v, &[root_key()], &mut quiet());
    assert!(actions.is_empty());
    assert_eq!(node.state, TileState::Computing);
    let (_, actions) = frame(&mut node, &v, &[root_key(), new_key], &mut quiet());
    assert_eq!(actions, vec![Action::Store { key: new_key }]);
    let (complete, actions) = frame(&mut node, &v, &[root_key()], &mut quiet());
    assert!(complete);
    assert!(matches!(actions[0], Action::Tile { key, .. } if key == new_key));
}

#[test]
fn the_deepest_zoom_ends_at_the_smallest_region() {
    let mut node = FractalNode::new(C);
    // One fixed-point unit to the pixel, the finest scale there is.
    let v = view(2, 2, (0, 0), 1);
    let mut debug = quiet();
    let (complete, actions) = frame(&mut node, &v, &[], &mut debug);
    assert!(!complete);
    let mut depth = 0;
    let mut walk = &node;
    // Towards the origin: up and right once, then down and left.
    while let Some(kids) = walk.sub_nodes.as_ref() {
        walk = if depth == 0 { &kids.top_right } else { &kids.bottom_left };
        depth += 1;
    }
    // 1000 * 2^52 = 125 * 2^55: at the finest scale every region of 250
    // units or more is split, down to 125.
    assert_eq!(depth, 55);
    assert_eq!(walk.region().width(), MIN_WIDTH);
    assert_eq!(walk.state, TileState::Computing);
    let leaves = actions
        .iter()
        .filter(|a| matches!(a, Action::Spawn { key } if key.region.width() == MIN_WIDTH))
        .count();
    // The screen spans -1 ..= 1: the four smallest regions at the origin.
    assert_eq!(leaves, 4);
    for action in &actions {
        assert!(matches!(action, Action::Spawn { key } if key.complex_const == C));
    }
}

#[test]
fn display_and_generate_img_step_the_tile_alone() {
    let mut node = FractalNode::new(C);
    let v = view(10, 10, (0, 0), ONE as u64);
    let mut actions = Vec::new();
    let mut debug = quiet();
    assert!(!node.display(&v, &vec![], &mut debug, &mut actions));
    assert_eq!(actions, vec![Action::Spawn { key: root_key() }]);
    node.generate_img(&vec![root_key()], &mut actions);
    assert_eq!(actions[1], Action::Store { key: root_key() });
    node.generate_img(&vec![root_key()], &mut actions);
    assert_eq!(actions.len(), 2);
    assert!(node.display(&v, &vec![], &mut debug, &mut actions));
    assert_eq!(actions.len(), 3);
    assert_eq!(debug.draw_count, 1);
    assert!(node.sub_nodes.is_none());
}

#[test]
fn trees_made_by_frames_are_well_formed() {
    let mut node = FractalNode::new(C);
    assert!(node.is_wf());
    let v = view(300, 200, (40, -25), ONE as u64 / 3);
    let mut ready = Vec::new();
    for _ in 0..4 {
        let (_, actions) = frame(&mut node, &v, &ready, &mut quiet());
        assert!(node.is_wf());
        for action in actions {
            if let Action::Spawn { key } = action {
                assert!(key.region.is_wf());
                assert_eq!(key.complex_const, C);
                ready.push(key);
            }
        }
    }
    assert!(node.sub_nodes.is_some());
}

#[test]
fn a_tree_that_was_tampered_with_is_not_well_formed() {
    let v = view(300, 200, (0, 0), 3 * ONE as u64);

    let mut moved = FractalNode::new(C);
    frame(&mut moved, &v, &[], &mut quiet());
    moved.sub_nodes.as_mut().unwrap().top_right.x_range.start += 2;
    assert!(!moved.is_wf());

    let mut other_constant = FractalNode::new(C);
    frame(&mut other_constant, &v, &[], &mut quiet());
    other_constant.sub_nodes.as_mut().unwrap().bottom_left.complex_const.1 += 1;
    assert!(!other_constant.is_wf());

    let mut swapped = FractalNode::new(C);
    frame(&mut swapped, &v, &[], &mut quiet());
    let kids = swapped.sub_nodes.as_mut().unwrap();
    std::mem::swap(&mut kids.top_left, &mut kids.bottom_right);
    assert!(!swapped.is_wf());

    let mut odd = FractalNode::new(C);
    odd.x_range.end -= 1;
    odd.y_range.end -= 1;
    assert!(odd.region().is_wf());
    assert!(!odd.is_wf());

    let mut deep = FractalNode::new(C);
    frame(&mut deep, &view(2, 2, (0, 0), 1), &[], &mut quiet());
    assert!(deep.is_wf());
    let mut walk = &mut deep;
    for _ in 0..30 {
        walk = &mut walk.sub_nodes.as_mut().unwrap().top_right;
        if walk.sub_nodes.is_none() {
            break;
        }
        walk = &mut walk.sub_nodes.as_mut().unwrap().bottom_left;
    }
    walk.y_range.start -= 1;
    assert!(!deep.is_wf());
}

#[test]
fn the_width_in_pixels_alone_decides_the_split() {
    for k in 1..20 {
        let width: i64 = 125 << k;
        for scale in [width / 250 - 1, width / 250, width / 250 + 1, width / 125, 2 * width] {
            if scale < 1 {
                continue;
            }
            let mut node = FractalNode {
                complex_const: C,
                state: TileState::Empty,
                x_range: Span { start: -width, end: 0 },
                y_range: Span { start: 3 * width, end: 4 * width },
                sub_nodes: None,
            };
            assert!(node.is_wf());
            // Far from the screen or on it, tiled or not: the split depends
            // on the width in pixels only.
            for (offset, state) in [((0, 0), TileState::Empty), ((1 << 40, 5), TileState::Tiled)] {
                node.state = state;
                node.sub_nodes = None;
                let v = view(640, 480, offset, scale as u64);
                frame(&mut node, &v, &[], &mut quiet());
                assert_eq!(
                    node.sub_nodes.is_some(),
                    width >= 250 * scale,
                    "width {} at scale {}",
                    width,
                    scale
                );
            }
        }
    }
}
