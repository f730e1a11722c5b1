//! The tiles a tree keeps: where they come from, and that they stay.

use crate::fractal::{Action, FractalNode, SubNodes, TileKey};
use crate::frame::{about_within, lemma_draw_keeps_shape, lemma_draw_within, lemma_sub_nodes_wf};
use crate::region::Region;
use crate::viewport::Viewport;
use vstd::prelude::*;

verus! {

/// Whether some node of the tree keeps the tile of `key`.
pub open spec fn holds_tile(node: FractalNode, key: TileKey) -> bool
    decreases node,
{
    ||| node.state is Tiled && node.spec_key() == key
    ||| match node.sub_nodes {
        None => false,
        Some(kids) => {
            ||| holds_tile(kids.top_left, key)
            ||| holds_tile(kids.top_right, key)
            ||| holds_tile(kids.bottom_left, key)
            ||| holds_tile(kids.bottom_right, key)
        },
    }
}

/// Whether every tile that `actions` paint or outline is kept in the tree.
pub open spec fn paints_kept(actions: Seq<Action>, node: FractalNode) -> bool {
    forall|i: int|
        0 <= i < actions.len() && ((#[trigger] actions[i]) is Tile || actions[i] is Outline)
            ==> holds_tile(node, actions[i].key())
}

/// Whether every tile kept in `after` was kept in `before` or is among
/// `ready`.
pub open spec fn kept_from(after: FractalNode, before: FractalNode, ready: Seq<TileKey>) -> bool {
    forall|key: TileKey| #[trigger]
        holds_tile(after, key) ==> holds_tile(before, key) || ready.contains(key)
}

/// Whether one of four children keeps the tile of `key`.
pub open spec fn kids_hold_tile(kids: SubNodes, key: TileKey) -> bool {
    ||| holds_tile(kids.top_left, key)
    ||| holds_tile(kids.top_right, key)
    ||| holds_tile(kids.bottom_left, key)
    ||| holds_tile(kids.bottom_right, key)
}

/// A tree that has just been made keeps no tile.
pub proof fn lemma_fresh_holds_no_tile(complex_const: (i64, i64), region: Region, key: TileKey)
    ensures
        !holds_tile(FractalNode::fresh(complex_const, region), key),
{
}

/// A tile kept by the children, present or fresh, of a node is kept by the
/// node.
proof fn lemma_kids_tiles(node: FractalNode, key: TileKey)
    requires
        kids_hold_tile(node.sub_nodes_or_fresh(), key),
    ensures
        node.sub_nodes is Some,
        holds_tile(node, key),
{
}

/// The tile that the action at index `i` of a frame paints or outlines was
/// kept in the tree before the frame.
pub proof fn lemma_draw_paints_kept(
    node: FractalNode,
    view: Viewport,
    ready: Seq<TileKey>,
    debug_on: bool,
    i: int,
)
    requires
        node.wf(),
        view.wf(),
        0 <= i < node.draw_spec(view, ready, debug_on).actions.len(),
        node.draw_spec(view, ready, debug_on).actions[i] is Tile || node.draw_spec(
            view,
            ready,
            debug_on,
        ).actions[i] is Outline,
    ensures
        holds_tile(node, node.draw_spec(view, ready, debug_on).actions[i].key()),
    decreases node.spec_region().side(), 0int,
{
    if view.spec_fits_tile(node.spec_region()) {
        node.lemma_display_action(view, ready, debug_on, i);
    } else {
        lemma_sub_nodes_wf(node, view);
        let kids = node.sub_nodes_or_fresh();
        let walk = kids.walk_spec(view, ready, debug_on);
        node.lemma_after_walk_action(walk, view, ready, debug_on, i);
        if i < walk.actions.len() {
            lemma_walk_paints_kept(kids, view, ready, debug_on, i);
            lemma_kids_tiles(node, walk.actions[i].key());
        }
    }
}

/// The tile that the action at index `i` of a walk of four children paints
/// or outlines was kept by one of them.
proof fn lemma_walk_paints_kept(
    kids: SubNodes,
    view: Viewport,
    ready: Seq<TileKey>,
    debug_on: bool,
    i: int,
)
    requires
        kids.wf(),
        view.wf(),
        0 <= i < kids.walk_spec(view, ready, debug_on).actions.len(),
        kids.walk_spec(view, ready, debug_on).actions[i] is Tile || kids.walk_spec(
            view,
            ready,
            debug_on,
        ).actions[i] is Outline,
    ensures
        kids_hold_tile(kids, kids.walk_spec(view, ready, debug_on).actions[i].key()),
    decreases kids.top_left.spec_region().side(), 2int,
{
    let a = kids.top_left.visit_spec(view, ready, debug_on).actions;
    let b = kids.top_right.visit_spec(view, ready, debug_on).actions;
    let c = kids.bottom_left.visit_spec(view, ready, debug_on).actions;
    let d = kids.bottom_right.visit_spec(view, ready, debug_on).actions;
    if i < a.len() {
        lemma_visit_paints_kept(kids.top_left, view, ready, debug_on, i);
    } else if i < a.len() + b.len() {
        lemma_visit_paints_kept(kids.top_right, view, ready, debug_on, i - a.len());
    } else if i < a.len() + b.len() + c.len() {
        lemma_visit_paints_kept(kids.bottom_left, view, ready, debug_on, i - a.len() - b.len());
    } else {
        lemma_visit_paints_kept(
            kids.bottom_right,
            view,
            ready,
            debug_on,
            i - a.len() - b.len() - c.len(),
        );
    }
}

/// The tile that the action at index `i` of a visit paints or outlines was
/// kept by the child.
proof fn lemma_visit_paints_kept(
    node: FractalNode,
    view: Viewport,
    ready: Seq<TileKey>,
    debug_on: bool,
    i: int,
)
    requires
        node.wf(),
        view.wf(),
        0 <= i < node.visit_spec(view, ready, debug_on).actions.len(),
        node.visit_spec(view, ready, debug_on).actions[i] is Tile || node.visit_spec(
            view,
            ready,
            debug_on,
        ).actions[i] is Outline,
    ensures
        holds_tile(node, node.visit_spec(view, ready, debug_on).actions[i].key()),
    decreases node.spec_region().side(), 1int,
{
    lemma_draw_paints_kept(node, view, ready, debug_on, i);
}

/// A tile that the tree keeps after a frame was kept before the frame or
/// was among `ready`.
pub proof fn lemma_draw_kept_from(
    node: FractalNode,
    view: Viewport,
    ready: Seq<TileKey>,
    debug_on: bool,
    key: TileKey,
)
    requires
        node.wf(),
        view.wf(),
        holds_tile(node.draw_spec(view, ready, debug_on).node, key),
    ensures
        holds_tile(node, key) || ready.contains(key),
    decreases node.spec_region().side(), 0int,
{
    if !view.spec_fits_tile(node.spec_region()) {
        lemma_sub_nodes_wf(node, view);
        let kids = node.sub_nodes_or_fresh();
        let walk = kids.walk_spec(view, ready, debug_on);
        if kids_hold_tile(walk.sub_nodes, key) {
            lemma_walk_kept_from(kids, view, ready, debug_on, key);
            if kids_hold_tile(kids, key) {
                lemma_kids_tiles(node, key);
            }
        }
    }
}

/// A tile that one of four children keeps after a walk was kept by one of
/// them before or was among `ready`.
proof fn lemma_walk_kept_from(
    kids: SubNodes,
    view: Viewport,
    ready: Seq<TileKey>,
    debug_on: bool,
    key: TileKey,
)
    requires
        kids.wf(),
        view.wf(),
        kids_hold_tile(kids.walk_spec(view, ready, debug_on).sub_nodes, key),
    ensures
        kids_hold_tile(kids, key) || ready.contains(key),
    decreases kids.top_left.spec_region().side(), 2int,
{
    let after = kids.walk_spec(view, ready, debug_on).sub_nodes;
    if holds_tile(after.top_left, key) {
        lemma_visit_kept_from(kids.top_left, view, ready, debug_on, key);
    } else if holds_tile(after.top_right, key) {
        lemma_visit_kept_from(kids.top_right, view, ready, debug_on, key);
    } else if holds_tile(after.bottom_left, key) {
        lemma_visit_kept_from(kids.bottom_left, view, ready, debug_on, key);
    } else {
        lemma_visit_kept_from(kids.bottom_right, view, ready, debug_on, key);
    }
}

/// A tile that a child keeps after a visit was kept by it before or was
/// among `ready`.
proof fn lemma_visit_kept_from(
    node: FractalNode,
    view: Viewport,
    ready: Seq<TileKey>,
    debug_on: bool,
    key: TileKey,
)
    requires
        node.wf(),
        view.wf(),
        holds_tile(node.visit_spec(view, ready, debug_on).node, key),
    ensures
        holds_tile(node, key) || ready.contains(key),
    decreases node.spec_region().side(), 1int,
{
    if view.spec_sees(node.spec_region()) {
        lemma_draw_kept_from(node, view, ready, debug_on, key);
    }
}

/// A frame paints only tiles that the tree kept before the frame, and the
/// tree keeps after the frame only tiles that it kept before or that were
/// among `ready`.
pub proof fn lemma_draw_tiles(
    node: FractalNode,
    view: Viewport,
    ready: Seq<TileKey>,
    debug_on: bool,
)
    requires
        node.wf(),
        view.wf(),
    ensures
        paints_kept(node.draw_spec(view, ready, debug_on).actions, node),
        kept_from(node.draw_spec(view, ready, debug_on).node, node, ready),
{
    let after = node.draw_spec(view, ready, debug_on);
    assert forall|i: int|
        0 <= i < after.actions.len() && ((#[trigger] after.actions[i]) is Tile
            || after.actions[i] is Outline) implies holds_tile(node, after.actions[i].key()) by {
        lemma_draw_paints_kept(node, view, ready, debug_on, i);
    }
    assert forall|key: TileKey| #[trigger] holds_tile(after.node, key) implies holds_tile(
        node,
        key,
    ) || ready.contains(key) by {
        lemma_draw_kept_from(node, view, ready, debug_on, key);
    }
}

/// Whether `after` has everything that `before` had: every node of `before`
/// is still in its place, a tile that was kept is kept, a tile that was
/// being computed has not been forgotten, and a node that was split is
/// split.
pub open spec fn grows(before: FractalNode, after: FractalNode) -> bool
    decreases before,
{
    &&& after.spec_key() == before.spec_key()
    &&& before.state is Tiled ==> after.state is Tiled
    &&& before.state is Computing ==> !(after.state is Empty)
    &&& match before.sub_nodes {
        None => true,
        Some(kids) => {
            &&& after.sub_nodes matches Some(later)
            &&& grows(kids.top_left, later.top_left)
            &&& grows(kids.top_right, later.top_right)
            &&& grows(kids.bottom_left, later.bottom_left)
            &&& grows(kids.bottom_right, later.bottom_right)
        },
    }
}

/// A tree has everything that it has.
pub proof fn lemma_grows_refl(node: FractalNode)
    ensures
        grows(node, node),
    decreases node,
{
    match node.sub_nodes {
        None => {},
        Some(kids) => {
            lemma_grows_refl(kids.top_left);
            lemma_grows_refl(kids.top_right);
            lemma_grows_refl(kids.bottom_left);
            lemma_grows_refl(kids.bottom_right);
        },
    }
}

/// Painting or asking for a node's own tile loses nothing.
proof fn lemma_display_grows(node: FractalNode, view: Viewport, ready: Seq<TileKey>, debug_on: bool)
    requires
        node.wf(),
    ensures
        grows(node, node.display_spec(view, ready, debug_on).node),
{
    lemma_grows_refl(node);
}

/// A frame loses nothing: no tile is dropped and no node is pruned.
pub proof fn lemma_draw_grows(
    node: FractalNode,
    view: Viewport,
    ready: Seq<TileKey>,
    debug_on: bool,
)
    requires
        node.wf(),
        view.wf(),
    ensures
        grows(node, node.draw_spec(view, ready, debug_on).node),
    decreases node.spec_region().side(), 0int,
{
    if view.spec_fits_tile(node.spec_region()) {
        lemma_display_grows(node, view, ready, debug_on);
    } else {
        lemma_sub_nodes_wf(node, view);
        lemma_walk_grows(node.sub_nodes_or_fresh(), view, ready, debug_on);
    }
}

/// A walk of four children loses nothing.
proof fn lemma_walk_grows(kids: SubNodes, view: Viewport, ready: Seq<TileKey>, debug_on: bool)
    requires
        kids.wf(),
        view.wf(),
    ensures
        grows(kids.top_left, kids.walk_spec(view, ready, debug_on).sub_nodes.top_left),
        grows(kids.top_right, kids.walk_spec(view, ready, debug_on).sub_nodes.top_right),
        grows(kids.bottom_left, kids.walk_spec(view, ready, debug_on).sub_nodes.bottom_left),
        grows(kids.bottom_right, kids.walk_spec(view, ready, debug_on).sub_nodes.bottom_right),
    decreases kids.top_left.spec_region().side(), 2int,
{
    lemma_visit_grows(kids.top_left, view, ready, debug_on);
    lemma_visit_grows(kids.top_right, view, ready, debug_on);
    lemma_visit_grows(kids.bottom_left, view, ready, debug_on);
    lemma_visit_grows(kids.bottom_right, view, ready, debug_on);
}

/// A visit loses nothing.
proof fn lemma_visit_grows(
    node: FractalNode,
    view: Viewport,
    ready: Seq<TileKey>,
    debug_on: bool,
)
    requires
        node.wf(),
        view.wf(),
    ensures
        grows(node, node.visit_spec(view, ready, debug_on).node),
    decreases node.spec_region().side(), 1int,
{
    if view.spec_sees(node.spec_region()) {
        lemma_draw_grows(node, view, ready, debug_on);
    } else {
        lemma_grows_refl(node);
    }
}

/// How many of `actions` paint a tile.
pub open spec fn tiles_painted(actions: Seq<Action>) -> nat
    decreases actions.len(),
{
    if actions.len() == 0 {
        0
    } else {
        tiles_painted(actions.drop_last()) + if actions.last() is Tile {
            1nat
        } else {
            0nat
        }
    }
}

proof fn lemma_tiles_painted_append(first: Seq<Action>, second: Seq<Action>)
    ensures
        tiles_painted(first + second) == tiles_painted(first) + tiles_painted(second),
    decreases second.len(),
{
    if second.len() == 0 {
        assert(first + second =~= first);
    } else {
        assert((first + second).drop_last() =~= first + second.drop_last());
        lemma_tiles_painted_append(first, second.drop_last());
    }
}

/// Painting a node's own tile counts one, asking for it counts nothing.
proof fn lemma_display_counts(node: FractalNode, view: Viewport, ready: Seq<TileKey>, debug_on: bool)
    ensures
        node.display_spec(view, ready, debug_on).draws == tiles_painted(
            node.display_spec(view, ready, debug_on).actions,
        ),
{
    reveal_with_fuel(tiles_painted, 3);
    let actions = node.display_spec(view, ready, debug_on).actions;
    if actions.len() == 2 {
        assert(actions.drop_last().len() == 1);
        assert(actions.drop_last().drop_last().len() == 0);
    } else if actions.len() == 1 {
        assert(actions.drop_last().len() == 0);
    }
}

/// A frame counts exactly the tiles it paints.
pub proof fn lemma_draw_counts(
    node: FractalNode,
    view: Viewport,
    ready: Seq<TileKey>,
    debug_on: bool,
)
    requires
        node.wf(),
        view.wf(),
    ensures
        node.draw_spec(view, ready, debug_on).draws == tiles_painted(
            node.draw_spec(view, ready, debug_on).actions,
        ),
    decreases node.spec_region().side(), 0int,
{
    if view.spec_fits_tile(node.spec_region()) {
        lemma_display_counts(node, view, ready, debug_on);
    } else {
        lemma_sub_nodes_wf(node, view);
        let walk = node.sub_nodes_or_fresh().walk_spec(view, ready, debug_on);
        lemma_walk_counts(node.sub_nodes_or_fresh(), view, ready, debug_on);
        let stand_in = node.walked(walk).display_spec(view, ready, debug_on);
        lemma_display_counts(node.walked(walk), view, ready, debug_on);
        lemma_tiles_painted_append(walk.actions, stand_in.actions);
    }
}

/// A walk of four children counts exactly the tiles it paints.
proof fn lemma_walk_counts(kids: SubNodes, view: Viewport, ready: Seq<TileKey>, debug_on: bool)
    requires
        kids.wf(),
        view.wf(),
    ensures
        kids.walk_spec(view, ready, debug_on).draws == tiles_painted(
            kids.walk_spec(view, ready, debug_on).actions,
        ),
    decreases kids.top_left.spec_region().side(), 2int,
{
    let a = kids.top_left.visit_spec(view, ready, debug_on);
    let b = kids.top_right.visit_spec(view, ready, debug_on);
    let c = kids.bottom_left.visit_spec(view, ready, debug_on);
    let d = kids.bottom_right.visit_spec(view, ready, debug_on);
    lemma_visit_counts(kids.top_left, view, ready, debug_on);
    lemma_visit_counts(kids.top_right, view, ready, debug_on);
    lemma_visit_counts(kids.bottom_left, view, ready, debug_on);
    lemma_visit_counts(kids.bottom_right, view, ready, debug_on);
    lemma_tiles_painted_append(a.actions, b.actions);
    lemma_tiles_painted_append(a.actions + b.actions, c.actions);
    lemma_tiles_painted_append(a.actions + b.actions + c.actions, d.actions);
}

/// A visit counts exactly the tiles it paints.
proof fn lemma_visit_counts(
    node: FractalNode,
    view: Viewport,
    ready: Seq<TileKey>,
    debug_on: bool,
)
    requires
        node.wf(),
        view.wf(),
    ensures
        node.visit_spec(view, ready, debug_on).draws == tiles_painted(
            node.visit_spec(view, ready, debug_on).actions,
        ),
    decreases node.spec_region().side(), 1int,
{
    if view.spec_sees(node.spec_region()) {
        lemma_draw_counts(node, view, ready, debug_on);
    }
}

/// What the host hands to one frame.
pub struct FrameInput {
    pub view: Viewport,
    pub ready: Seq<TileKey>,
    pub debug_on: bool,
}

/// The tree after the frames `frames`, drawn one after another.
pub open spec fn after_frames(node: FractalNode, frames: Seq<FrameInput>) -> FractalNode
    decreases frames.len(),
{
    if frames.len() == 0 {
        node
    } else {
        after_frames(node, frames.drop_last()).draw_spec(
            frames.last().view,
            frames.last().ready,
            frames.last().debug_on,
        ).node
    }
}

/// Whether the viewport of every frame is well formed.
pub open spec fn views_wf(frames: Seq<FrameInput>) -> bool {
    forall|j: int| 0 <= j < frames.len() ==> (#[trigger] frames[j]).view.wf()
}

/// Whether `key` was among the finished tiles handed to one of `frames`.
pub open spec fn delivered(frames: Seq<FrameInput>, key: TileKey) -> bool {
    exists|j: int| 0 <= j < frames.len() && (#[trigger] frames[j]).ready.contains(key)
}

/// After any number of frames the tree is well formed, its root is in its
/// place, and every tile it keeps was kept at the start or was handed, as
/// finished, to one of the frames.
pub proof fn lemma_frames_keep_delivered(node: FractalNode, frames: Seq<FrameInput>)
    requires
        node.wf(),
        views_wf(frames),
    ensures
        after_frames(node, frames).wf(),
        after_frames(node, frames).spec_key() == node.spec_key(),
        forall|key: TileKey| #[trigger]
            holds_tile(after_frames(node, frames), key) ==> holds_tile(node, key) || delivered(
                frames,
                key,
            ),
    decreases frames.len(),
{
    if frames.len() > 0 {
        let earlier = frames.drop_last();
        let last = frames.last();
        assert(views_wf(earlier)) by {
            assert forall|j: int| 0 <= j < earlier.len() implies (#[trigger] earlier[j]).view.wf() by {
                assert(earlier[j] == frames[j]);
            }
        }
        lemma_frames_keep_delivered(node, earlier);
        let before = after_frames(node, earlier);
        lemma_draw_keeps_shape(before, last.view, last.ready, last.debug_on);
        assert forall|key: TileKey| #[trigger]
            holds_tile(after_frames(node, frames), key) implies holds_tile(node, key) || delivered(
            frames,
            key,
        ) by {
            lemma_draw_kept_from(before, last.view, last.ready, last.debug_on, key);
            if holds_tile(before, key) {
                if !holds_tile(node, key) {
                    let j = choose|j: int|
                        0 <= j < earlier.len() && (#[trigger] earlier[j]).ready.contains(key);
                    assert(earlier[j] == frames[j]);
                }
            } else {
                assert(last.ready.contains(key));
                assert(frames[frames.len() - 1] == last);
            }
        }
    }
}

/// A tree made for a constant `c` never paints a tile of another constant,
/// nor a tile from before it was made: whatever frames it has been through,
/// every tile that its next frame paints is a tile of `c` and was handed, as
/// a finished tile of `c`, to one of those frames.
pub proof fn lemma_new_tree_paints_delivered_tiles(
    complex_const: (i64, i64),
    frames: Seq<FrameInput>,
    next: FrameInput,
    i: int,
)
    requires
        views_wf(frames),
        next.view.wf(),
        0 <= i < after_frames(
            FractalNode::fresh(complex_const, Region::spec_root()),
            frames,
        ).draw_spec(next.view, next.ready, next.debug_on).actions.len(),
        after_frames(FractalNode::fresh(complex_const, Region::spec_root()), frames).draw_spec(
            next.view,
            next.ready,
            next.debug_on,
        ).actions[i] is Tile,
    ensures
        ({
            let tree = after_frames(FractalNode::fresh(complex_const, Region::spec_root()), frames);
            let painted = tree.draw_spec(next.view, next.ready, next.debug_on).actions[i];
            &&& painted.key().complex_const == complex_const
            &&& delivered(frames, painted.key())
        }),
{
    let root = FractalNode::fresh(complex_const, Region::spec_root());
    crate::region::lemma_root_dyadic();
    assert(root.wf());
    lemma_frames_keep_delivered(root, frames);
    let tree = after_frames(root, frames);
    let actions = tree.draw_spec(next.view, next.ready, next.debug_on).actions;
    lemma_draw_within(tree, next.view, next.ready, next.debug_on);
    lemma_draw_paints_kept(tree, next.view, next.ready, next.debug_on, i);
    assert(about_within(actions[i], tree.spec_key()));
    lemma_fresh_holds_no_tile(complex_const, Region::spec_root(), actions[i].key());
}

} // verus!
