//! What holds of every frame: properties of [`FractalNode::draw_spec`],
//! each proved by induction over the tree.

use crate::fractal::{Action, FractalNode, SubNodes, TileKey};
use crate::region::{lemma_dyadic_halves, Region, MIN_WIDTH};
use crate::util::IMG_SIZE;
use crate::viewport::{lemma_shown_point_is_seen, Viewport};
use vstd::prelude::*;

verus! {

/// The children of a node too coarse for the screen, present or fresh, are
/// well formed, sit on the quadrants of its region, and share its constant.
pub proof fn lemma_sub_nodes_wf(node: FractalNode, view: Viewport)
    requires
        node.wf(),
        view.wf(),
        !view.spec_fits_tile(node.spec_region()),
    ensures
        node.spec_region().side() >= 2 * MIN_WIDTH,
        node.spec_region().side() % 2 == 0,
        node.sub_nodes_or_fresh().wf(),
        node.sub_nodes_or_fresh().sits_on(node.spec_key()),
        node.sub_nodes_or_fresh().top_left.spec_region().side() < node.spec_region().side(),
{
    let side = node.spec_region().side();
    assert(side >= 2 * MIN_WIDTH) by (nonlinear_arith)
        requires
            side >= IMG_SIZE * view.scale,
            view.scale >= 1,
            IMG_SIZE == 250,
            MIN_WIDTH == 125,
    ;
    lemma_dyadic_halves(side);
    let kids = node.sub_nodes_or_fresh();
    assert(kids.top_left.wf());
    assert(kids.top_right.wf());
    assert(kids.bottom_left.wf());
    assert(kids.bottom_right.wf());
}

/// A frame keeps the tree well formed and every node in its place; and it
/// splits a node exactly when the node is too coarse for the screen.
pub proof fn lemma_draw_keeps_shape(
    node: FractalNode,
    view: Viewport,
    ready: Seq<TileKey>,
    debug_on: bool,
)
    requires
        node.wf(),
        view.wf(),
    ensures
        node.draw_spec(view, ready, debug_on).node.wf(),
        node.draw_spec(view, ready, debug_on).node.spec_key() == node.spec_key(),
        node.draw_spec(view, ready, debug_on).node.sub_nodes is Some <==> node.sub_nodes is Some
            || !view.spec_fits_tile(node.spec_region()),
    decreases node.spec_region().side(), 0int,
{
    if view.spec_fits_tile(node.spec_region()) {
        node.lemma_display_keeps_shape(view, ready, debug_on);
    } else {
        lemma_sub_nodes_wf(node, view);
        let kids = node.sub_nodes_or_fresh();
        lemma_walk_keeps_shape(kids, view, ready, debug_on);
        let walked = node.walked(kids.walk_spec(view, ready, debug_on));
        assert(walked.wf());
        walked.lemma_display_keeps_shape(view, ready, debug_on);
    }
}

/// A walk keeps the four children well formed and in their places.
pub proof fn lemma_walk_keeps_shape(
    kids: SubNodes,
    view: Viewport,
    ready: Seq<TileKey>,
    debug_on: bool,
)
    requires
        kids.wf(),
        view.wf(),
    ensures
        kids.walk_spec(view, ready, debug_on).sub_nodes.wf(),
        kids.walk_spec(view, ready, debug_on).sub_nodes.keys() == kids.keys(),
    decreases kids.top_left.spec_region().side(), 2int,
{
    lemma_visit_keeps_shape(kids.top_left, view, ready, debug_on);
    lemma_visit_keeps_shape(kids.top_right, view, ready, debug_on);
    lemma_visit_keeps_shape(kids.bottom_left, view, ready, debug_on);
    lemma_visit_keeps_shape(kids.bottom_right, view, ready, debug_on);
}

/// A visit keeps the child well formed and in its place.
pub proof fn lemma_visit_keeps_shape(
    node: FractalNode,
    view: Viewport,
    ready: Seq<TileKey>,
    debug_on: bool,
)
    requires
        node.wf(),
        view.wf(),
    ensures
        node.visit_spec(view, ready, debug_on).node.wf(),
        node.visit_spec(view, ready, debug_on).node.spec_key() == node.spec_key(),
    decreases node.spec_region().side(), 1int,
{
    if view.spec_sees(node.spec_region()) {
        lemma_draw_keeps_shape(node, view, ready, debug_on);
    }
}

/// Whether `action` is about a tile of the constant of `key`, on a region
/// within the region of `key`.
pub open spec fn about_within(action: Action, key: TileKey) -> bool {
    &&& action.key().complex_const == key.complex_const
    &&& action.key().region.wf()
    &&& key.region.covers(action.key().region)
}

/// Whether every one of `actions` is about a tile within `key`.
pub open spec fn within(actions: Seq<Action>, key: TileKey) -> bool {
    forall|i: int| 0 <= i < actions.len() ==> about_within(#[trigger] actions[i], key)
}

/// Whether none of `actions` is about a tile on a region within `region`.
pub open spec fn untouched(actions: Seq<Action>, region: Region) -> bool {
    forall|i: int| 0 <= i < actions.len() ==> !region.covers((#[trigger] actions[i]).key().region)
}

/// Whether `action` comes of the visit of a child on screen: it is about a
/// tile within the child's region.
pub open spec fn from_visit(action: Action, child: FractalNode, view: Viewport) -> bool {
    view.spec_sees(child.spec_region()) && about_within(action, child.spec_key())
}

/// Whether `action` comes of the visit of one of four children on screen.
pub open spec fn from_walk(action: Action, kids: SubNodes, view: Viewport) -> bool {
    ||| from_visit(action, kids.top_left, view)
    ||| from_visit(action, kids.top_right, view)
    ||| from_visit(action, kids.bottom_left, view)
    ||| from_visit(action, kids.bottom_right, view)
}

/// The action at index `i` of a frame is about the node's own tile, or it
/// comes of the visit of one of its children on screen.
pub proof fn lemma_draw_action_origin(
    node: FractalNode,
    view: Viewport,
    ready: Seq<TileKey>,
    debug_on: bool,
    i: int,
)
    requires
        node.wf(),
        view.wf(),
        0 <= i < node.draw_spec(view, ready, debug_on).actions.len(),
    ensures
        ({
            let action = node.draw_spec(view, ready, debug_on).actions[i];
            ||| action.key() == node.spec_key()
            ||| !view.spec_fits_tile(node.spec_region()) && from_walk(
                action,
                node.sub_nodes_or_fresh(),
                view,
            )
        }),
        about_within(node.draw_spec(view, ready, debug_on).actions[i], node.spec_key()),
    decreases node.spec_region().side(), 0int,
{
    if view.spec_fits_tile(node.spec_region()) {
        node.lemma_display_action(view, ready, debug_on, i);
    } else {
        lemma_sub_nodes_wf(node, view);
        let kids = node.sub_nodes_or_fresh();
        let walk = kids.walk_spec(view, ready, debug_on);
        node.lemma_after_walk_action(walk, view, ready, debug_on, i);
        if i < walk.actions.len() {
            lemma_walk_action_origin(kids, view, ready, debug_on, i);
            lemma_from_walk_within(walk.actions[i], kids, node.spec_key(), view);
        }
    }
}

/// What comes of the visit of a child is about a tile within the region of
/// the parent.
proof fn lemma_from_walk_within(action: Action, kids: SubNodes, key: TileKey, view: Viewport)
    requires
        from_walk(action, kids, view),
        kids.sits_on(key),
        key.region.wf(),
        key.region.side() % 2 == 0,
    ensures
        about_within(action, key),
{
}

/// The action at index `i` of a walk of four children comes of the visit of
/// one of them on screen.
proof fn lemma_walk_action_origin(
    kids: SubNodes,
    view: Viewport,
    ready: Seq<TileKey>,
    debug_on: bool,
    i: int,
)
    requires
        kids.wf(),
        view.wf(),
        0 <= i < kids.walk_spec(view, ready, debug_on).actions.len(),
    ensures
        from_walk(kids.walk_spec(view, ready, debug_on).actions[i], kids, view),
    decreases kids.top_left.spec_region().side(), 2int,
{
    let a = kids.top_left.visit_spec(view, ready, debug_on).actions;
    let b = kids.top_right.visit_spec(view, ready, debug_on).actions;
    let c = kids.bottom_left.visit_spec(view, ready, debug_on).actions;
    let d = kids.bottom_right.visit_spec(view, ready, debug_on).actions;
    if i < a.len() {
        lemma_visit_action_origin(kids.top_left, view, ready, debug_on, i);
    } else if i < a.len() + b.len() {
        lemma_visit_action_origin(kids.top_right, view, ready, debug_on, i - a.len());
    } else if i < a.len() + b.len() + c.len() {
        lemma_visit_action_origin(kids.bottom_left, view, ready, debug_on, i - a.len() - b.len());
    } else {
        lemma_visit_action_origin(
            kids.bottom_right,
            view,
            ready,
            debug_on,
            i - a.len() - b.len() - c.len(),
        );
    }
}

/// A visit has actions only if the child is on screen, and each is about a
/// tile within the child's region.
proof fn lemma_visit_action_origin(
    node: FractalNode,
    view: Viewport,
    ready: Seq<TileKey>,
    debug_on: bool,
    i: int,
)
    requires
        node.wf(),
        view.wf(),
        0 <= i < node.visit_spec(view, ready, debug_on).actions.len(),
    ensures
        from_visit(node.visit_spec(view, ready, debug_on).actions[i], node, view),
    decreases node.spec_region().side(), 1int,
{
    lemma_draw_action_origin(node, view, ready, debug_on, i);
}

/// Every action of a frame is about a tile of the tree's own constant, on a
/// region within the region of the node that was drawn.
pub proof fn lemma_draw_within(
    node: FractalNode,
    view: Viewport,
    ready: Seq<TileKey>,
    debug_on: bool,
)
    requires
        node.wf(),
        view.wf(),
    ensures
        within(node.draw_spec(view, ready, debug_on).actions, node.spec_key()),
{
    let actions = node.draw_spec(view, ready, debug_on).actions;
    assert forall|i: int| 0 <= i < actions.len() implies about_within(
        #[trigger] actions[i],
        node.spec_key(),
    ) by {
        lemma_draw_action_origin(node, view, ready, debug_on, i);
    }
}

/// A child whose region, projected onto the screen, does not meet the
/// screen is left exactly as it was by the frame, and no action of the frame
/// is about a tile within its region: no worker is started for it or below
/// it, and nothing of it is painted or counted.
pub proof fn lemma_unseen_child_untouched(
    node: FractalNode,
    view: Viewport,
    ready: Seq<TileKey>,
    debug_on: bool,
)
    requires
        node.wf(),
        view.wf(),
        !view.spec_fits_tile(node.spec_region()),
    ensures
        ({
            let kids = node.sub_nodes_or_fresh();
            let after = node.draw_spec(view, ready, debug_on);
            &&& after.node.sub_nodes is Some
            &&& !view.spec_sees(kids.top_left.spec_region()) ==> {
                &&& after.node.sub_nodes->0.top_left == kids.top_left
                &&& untouched(after.actions, kids.top_left.spec_region())
            }
            &&& !view.spec_sees(kids.top_right.spec_region()) ==> {
                &&& after.node.sub_nodes->0.top_right == kids.top_right
                &&& untouched(after.actions, kids.top_right.spec_region())
            }
            &&& !view.spec_sees(kids.bottom_left.spec_region()) ==> {
                &&& after.node.sub_nodes->0.bottom_left == kids.bottom_left
                &&& untouched(after.actions, kids.bottom_left.spec_region())
            }
            &&& !view.spec_sees(kids.bottom_right.spec_region()) ==> {
                &&& after.node.sub_nodes->0.bottom_right == kids.bottom_right
                &&& untouched(after.actions, kids.bottom_right.spec_region())
            }
        }),
{
    lemma_sub_nodes_wf(node, view);
    let kids = node.sub_nodes_or_fresh();
    let after = node.draw_spec(view, ready, debug_on);
    assert forall|i: int| 0 <= i < after.actions.len() implies {
        &&& !view.spec_sees(kids.top_left.spec_region()) ==> !kids.top_left.spec_region().covers(
            (#[trigger] after.actions[i]).key().region,
        )
        &&& !view.spec_sees(kids.top_right.spec_region()) ==> !kids.top_right.spec_region().covers(
            after.actions[i].key().region,
        )
        &&& !view.spec_sees(kids.bottom_left.spec_region())
            ==> !kids.bottom_left.spec_region().covers(after.actions[i].key().region)
        &&& !view.spec_sees(kids.bottom_right.spec_region())
            ==> !kids.bottom_right.spec_region().covers(after.actions[i].key().region)
    } by {
        lemma_draw_action_origin(node, view, ready, debug_on, i);
    }
}

/// Whether every one of `actions` paints or outlines a tile that is fine
/// enough for the screen.
pub open spec fn paints_final(actions: Seq<Action>, view: Viewport) -> bool {
    forall|i: int|
        0 <= i < actions.len() ==> ((#[trigger] actions[i]) is Tile || actions[i] is Outline)
            && view.spec_fits_tile(actions[i].key().region)
}

/// Whether one of `actions` paints a tile over the point `(x, y)` of the
/// plane.
pub open spec fn paints_over(actions: Seq<Action>, x: int, y: int) -> bool {
    exists|i: int|
        0 <= i < actions.len() && (#[trigger] actions[i]) is Tile && actions[i].key().region.contains(
            x,
            y,
        )
}

proof fn lemma_paints_final_append(first: Seq<Action>, second: Seq<Action>, view: Viewport)
    requires
        paints_final(first, view),
        paints_final(second, view),
    ensures
        paints_final(first + second, view),
{
    assert forall|i: int| 0 <= i < (first + second).len() implies ((#[trigger] (first
        + second)[i]) is Tile || (first + second)[i] is Outline) && view.spec_fits_tile(
        (first + second)[i].key().region,
    ) by {
        if i < first.len() {
            assert((first + second)[i] == first[i]);
        } else {
            assert((first + second)[i] == second[i - first.len()]);
        }
    }
}

proof fn lemma_paints_over_append(first: Seq<Action>, second: Seq<Action>, x: int, y: int)
    requires
        paints_over(first, x, y) || paints_over(second, x, y),
    ensures
        paints_over(first + second, x, y),
{
    if paints_over(first, x, y) {
        let i = choose|i: int|
            0 <= i < first.len() && (#[trigger] first[i]) is Tile && first[i].key().region.contains(
                x,
                y,
            );
        assert((first + second)[i] == first[i]);
    } else {
        let i = choose|i: int|
            0 <= i < second.len() && (#[trigger] second[i]) is Tile
                && second[i].key().region.contains(x, y);
        assert((first + second)[i + first.len()] == second[i]);
    }
}

/// A complete frame asks for nothing and stands in for nothing: each of its
/// actions paints or outlines a tile that is fine enough for the screen.
pub proof fn lemma_complete_frame_paints_final(
    node: FractalNode,
    view: Viewport,
    ready: Seq<TileKey>,
    debug_on: bool,
)
    requires
        node.wf(),
        view.wf(),
        node.draw_spec(view, ready, debug_on).complete,
    ensures
        paints_final(node.draw_spec(view, ready, debug_on).actions, view),
    decreases node.spec_region().side(), 0int,
{
    if !view.spec_fits_tile(node.spec_region()) {
        lemma_sub_nodes_wf(node, view);
        lemma_complete_walk_paints_final(node.sub_nodes_or_fresh(), view, ready, debug_on);
    }
}

/// A complete walk of four children paints only tiles fine enough for the
/// screen.
proof fn lemma_complete_walk_paints_final(
    kids: SubNodes,
    view: Viewport,
    ready: Seq<TileKey>,
    debug_on: bool,
)
    requires
        kids.wf(),
        view.wf(),
        kids.walk_spec(view, ready, debug_on).complete,
    ensures
        paints_final(kids.walk_spec(view, ready, debug_on).actions, view),
    decreases kids.top_left.spec_region().side(), 2int,
{
    let a = kids.top_left.visit_spec(view, ready, debug_on);
    let b = kids.top_right.visit_spec(view, ready, debug_on);
    let c = kids.bottom_left.visit_spec(view, ready, debug_on);
    let d = kids.bottom_right.visit_spec(view, ready, debug_on);
    lemma_complete_visit_paints_final(kids.top_left, view, ready, debug_on);
    lemma_complete_visit_paints_final(kids.top_right, view, ready, debug_on);
    lemma_complete_visit_paints_final(kids.bottom_left, view, ready, debug_on);
    lemma_complete_visit_paints_final(kids.bottom_right, view, ready, debug_on);
    lemma_paints_final_append(a.actions, b.actions, view);
    lemma_paints_final_append(a.actions + b.actions, c.actions, view);
    lemma_paints_final_append(a.actions + b.actions + c.actions, d.actions, view);
}

/// A complete visit paints only tiles fine enough for the screen.
proof fn lemma_complete_visit_paints_final(
    node: FractalNode,
    view: Viewport,
    ready: Seq<TileKey>,
    debug_on: bool,
)
    requires
        node.wf(),
        view.wf(),
        node.visit_spec(view, ready, debug_on).complete,
    ensures
        paints_final(node.visit_spec(view, ready, debug_on).actions, view),
    decreases node.spec_region().side(), 1int,
{
    if view.spec_sees(node.spec_region()) {
        lemma_complete_frame_paints_final(node, view, ready, debug_on);
    }
}

/// A complete frame leaves no gap: over every point of the node's region
/// that the screen shows it paints a tile.
pub proof fn lemma_complete_frame_covers(
    node: FractalNode,
    view: Viewport,
    ready: Seq<TileKey>,
    debug_on: bool,
    x: int,
    y: int,
)
    requires
        node.wf(),
        view.wf(),
        node.draw_spec(view, ready, debug_on).complete,
        node.spec_region().contains(x, y),
        view.shows(2 * x, 2 * y),
    ensures
        paints_over(node.draw_spec(view, ready, debug_on).actions, x, y),
    decreases node.spec_region().side(), 0int,
{
    let actions = node.draw_spec(view, ready, debug_on).actions;
    if view.spec_fits_tile(node.spec_region()) {
        assert(actions[0] is Tile && actions[0].key() == node.spec_key());
    } else {
        lemma_sub_nodes_wf(node, view);
        let kids = node.sub_nodes_or_fresh();
        lemma_point_in_quadrant(node.spec_region(), x, y);
        lemma_complete_walk_covers(kids, view, ready, debug_on, x, y);
    }
}

/// Every point of a region lies in one of its quadrants.
proof fn lemma_point_in_quadrant(region: Region, x: int, y: int)
    requires
        region.wf(),
        region.side() % 2 == 0,
        region.contains(x, y),
    ensures
        ({
            let q = region.spec_quadrants();
            ||| q.top_left.contains(x, y)
            ||| q.top_right.contains(x, y)
            ||| q.bottom_left.contains(x, y)
            ||| q.bottom_right.contains(x, y)
        }),
{
}

/// A complete walk of four children leaves no gap over what the screen
/// shows of their regions.
proof fn lemma_complete_walk_covers(
    kids: SubNodes,
    view: Viewport,
    ready: Seq<TileKey>,
    debug_on: bool,
    x: int,
    y: int,
)
    requires
        kids.wf(),
        view.wf(),
        kids.walk_spec(view, ready, debug_on).complete,
        view.shows(2 * x, 2 * y),
        ({
            ||| kids.top_left.spec_region().contains(x, y)
            ||| kids.top_right.spec_region().contains(x, y)
            ||| kids.bottom_left.spec_region().contains(x, y)
            ||| kids.bottom_right.spec_region().contains(x, y)
        }),
    ensures
        paints_over(kids.walk_spec(view, ready, debug_on).actions, x, y),
    decreases kids.top_left.spec_region().side(), 2int,
{
    let a = kids.top_left.visit_spec(view, ready, debug_on);
    let b = kids.top_right.visit_spec(view, ready, debug_on);
    let c = kids.bottom_left.visit_spec(view, ready, debug_on);
    let d = kids.bottom_right.visit_spec(view, ready, debug_on);
    if kids.top_left.spec_region().contains(x, y) {
        lemma_complete_visit_covers(kids.top_left, view, ready, debug_on, x, y);
        lemma_paints_over_append(a.actions, b.actions, x, y);
        lemma_paints_over_append(a.actions + b.actions, c.actions, x, y);
    } else if kids.top_right.spec_region().contains(x, y) {
        lemma_complete_visit_covers(kids.top_right, view, ready, debug_on, x, y);
        lemma_paints_over_append(a.actions, b.actions, x, y);
        lemma_paints_over_append(a.actions + b.actions, c.actions, x, y);
    } else if kids.bottom_left.spec_region().contains(x, y) {
        lemma_complete_visit_covers(kids.bottom_left, view, ready, debug_on, x, y);
        lemma_paints_over_append(a.actions + b.actions, c.actions, x, y);
    } else {
        lemma_complete_visit_covers(kids.bottom_right, view, ready, debug_on, x, y);
    }
    lemma_paints_over_append(a.actions + b.actions + c.actions, d.actions, x, y);
}

/// A complete visit leaves no gap over what the screen shows of the child's
/// region.
proof fn lemma_complete_visit_covers(
    node: FractalNode,
    view: Viewport,
    ready: Seq<TileKey>,
    debug_on: bool,
    x: int,
    y: int,
)
    requires
        node.wf(),
        view.wf(),
        node.visit_spec(view, ready, debug_on).complete,
        node.spec_region().contains(x, y),
        view.shows(2 * x, 2 * y),
    ensures
        paints_over(node.visit_spec(view, ready, debug_on).actions, x, y),
    decreases node.spec_region().side(), 1int,
{
    lemma_shown_point_is_seen(view, node.spec_region(), x, y);
    lemma_complete_frame_covers(node, view, ready, debug_on, x, y);
}

} // verus!
