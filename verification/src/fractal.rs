//! The quadtree of tiles and its draw protocol.
//!
//! A frame walks the tree once. It neither computes tiles nor paints them:
//! it is told which tiles have finished computing, and it answers with the
//! list of things to do, in order. Start a worker for a tile; keep a
//! finished tile; paint a kept tile at a place on the screen.

use crate::color::{heat_stops, ColorMapper};
use crate::pixels::{image_is_rgb8, image_pixels};
use crate::region::{
    dyadic, is_dyadic, lemma_dyadic_halves, Quadrants, Region, Span, MIN_WIDTH,
};
use crate::util::{rasterize, Sampling, IMG_SIZE, MAX_ITER};
use crate::viewport::{Placement, Viewport};
use vstd::prelude::*;

verus! {

/// Samples along each side of a pixel of a tile on screen.
pub const MULTISAMPLE_SIZE: u32 = 2;

/// The diagnostics of one frame: whether tile outlines are wanted, and how
/// many tiles were painted.
#[derive(Clone, Copy, Debug, PartialEq, Eq)]
pub struct Debug {
    pub is_debug: bool,
    pub draw_count: u32,
}

/// What a tile is the picture of: a region under a constant `c`.
#[derive(Clone, Copy, Debug, PartialEq, Eq, Hash)]
pub struct TileKey {
    pub complex_const: (i64, i64),
    pub region: Region,
}

/// How far the tile of a node has come.
#[derive(Clone, Copy, Debug, PartialEq, Eq, Structural)]
pub enum TileState {
    /// Nothing asked for yet.
    Empty,
    /// A worker is computing the tile.
    Computing,
    /// The finished tile is kept.
    Tiled,
}

/// One thing for the host to do after a frame.
#[derive(Clone, Copy, Debug, PartialEq, Eq)]
pub enum Action {
    /// Start a worker that computes the tile.
    Spawn { key: TileKey },
    /// Take the finished tile from its worker and keep it for painting.
    Store { key: TileKey },
    /// Paint the kept tile at the given place.
    Tile { key: TileKey, at: Placement },
    /// Paint an outline around the tile at the given place.
    Outline { key: TileKey, at: Placement },
}

/// The four children of a node, one for each quadrant of its region.
#[derive(Debug, PartialEq, Eq)]
pub struct SubNodes {
    pub top_left: FractalNode,
    pub top_right: FractalNode,
    pub bottom_left: FractalNode,
    pub bottom_right: FractalNode,
}

/// A node of the quadtree: a square of the plane, the state of its own
/// tile, and, once it has been split, its four children.
#[derive(Debug, PartialEq, Eq)]
pub struct FractalNode {
    pub complex_const: (i64, i64),
    pub state: TileState,
    pub x_range: Span,
    pub y_range: Span,
    pub sub_nodes: Option<Box<SubNodes>>,
}

/// What a walk of a subtree comes to: the subtree afterwards, the actions it
/// asks for, whether it is shown at full detail, and how many tiles it
/// painted.
pub struct Outcome {
    pub node: FractalNode,
    pub actions: Seq<Action>,
    pub complete: bool,
    pub draws: nat,
}

/// What a walk of the four children of a node comes to.
pub struct Walk {
    pub sub_nodes: SubNodes,
    pub actions: Seq<Action>,
    pub complete: bool,
    pub draws: nat,
}

/// A counter that stops at its largest value.
pub open spec fn saturate(count: int) -> u32 {
    if count >= u32::MAX {
        u32::MAX
    } else {
        count as u32
    }
}

impl Action {
    /// The tile an action is about.
    pub open spec fn key(self) -> TileKey {
        match self {
            Action::Spawn { key } => key,
            Action::Store { key } => key,
            Action::Tile { key, .. } => key,
            Action::Outline { key, .. } => key,
        }
    }
}

impl FractalNode {
    /// The region of the node.
    pub open spec fn spec_region(self) -> Region {
        Region { x_range: self.x_range, y_range: self.y_range }
    }

    /// The key of the node's own tile.
    pub open spec fn spec_key(self) -> TileKey {
        TileKey { complex_const: self.complex_const, region: self.spec_region() }
    }

    /// A node without tile or children.
    pub open spec fn fresh(complex_const: (i64, i64), region: Region) -> FractalNode {
        FractalNode {
            complex_const,
            state: TileState::Empty,
            x_range: region.x_range,
            y_range: region.y_range,
            sub_nodes: None,
        }
    }

    /// Four fresh children on the quadrants of the node's region.
    pub open spec fn fresh_sub_nodes(self) -> SubNodes {
        let q = self.spec_region().spec_quadrants();
        SubNodes {
            top_left: FractalNode::fresh(self.complex_const, q.top_left),
            top_right: FractalNode::fresh(self.complex_const, q.top_right),
            bottom_left: FractalNode::fresh(self.complex_const, q.bottom_left),
            bottom_right: FractalNode::fresh(self.complex_const, q.bottom_right),
        }
    }

    /// The children of the node, or fresh ones if it has not been split.
    pub open spec fn sub_nodes_or_fresh(self) -> SubNodes {
        match self.sub_nodes {
            Some(kids) => *kids,
            None => self.fresh_sub_nodes(),
        }
    }

    /// A tree is well formed when every node's region is a square of the
    /// dyadic family, and the children of every split node sit on the four
    /// quadrants of its region and share its constant.
    pub open spec fn wf(self) -> bool
        decreases self,
    {
        &&& self.spec_region().wf()
        &&& dyadic(self.spec_region().side())
        &&& match self.sub_nodes {
            None => true,
            Some(kids) => {
                let q = self.spec_region().spec_quadrants();
                &&& self.spec_region().side() >= 2 * MIN_WIDTH
                &&& kids.top_left.spec_region() == q.top_left
                &&& kids.top_right.spec_region() == q.top_right
                &&& kids.bottom_left.spec_region() == q.bottom_left
                &&& kids.bottom_right.spec_region() == q.bottom_right
                &&& kids.top_left.complex_const == self.complex_const
                &&& kids.top_right.complex_const == self.complex_const
                &&& kids.bottom_left.complex_const == self.complex_const
                &&& kids.bottom_right.complex_const == self.complex_const
                &&& kids.top_left.wf()
                &&& kids.top_right.wf()
                &&& kids.bottom_left.wf()
                &&& kids.bottom_right.wf()
            },
        }
    }

    /// What asking for the node's tile comes to while the tile is not kept
    /// yet: a worker is started, or its finished tile is taken if it is
    /// among `ready`, or nothing happens while the worker is still busy.
    pub open spec fn generate_img_spec(self, ready: Seq<TileKey>) -> Outcome {
        match self.state {
            TileState::Empty => Outcome {
                node: FractalNode { state: TileState::Computing, ..self },
                actions: seq![(Action::Spawn { key: self.spec_key() })],
                complete: false,
                draws: 0,
            },
            TileState::Computing => if ready.contains(self.spec_key()) {
                Outcome {
                    node: FractalNode { state: TileState::Tiled, ..self },
                    actions: seq![(Action::Store { key: self.spec_key() })],
                    complete: false,
                    draws: 0,
                }
            } else {
                Outcome { node: self, actions: Seq::empty(), complete: false, draws: 0 }
            },
            TileState::Tiled => Outcome {
                node: self,
                actions: Seq::empty(),
                complete: false,
                draws: 0,
            },
        }
    }

    /// What painting the node's own tile comes to: a kept tile is painted at
    /// its place, with an outline when `debug_on`; otherwise the tile is
    /// asked for and nothing is painted.
    pub open spec fn display_spec(self, view: Viewport, ready: Seq<TileKey>, debug_on: bool)
        -> Outcome {
        match self.state {
            TileState::Tiled => {
                let at = view.spec_placement(self.spec_region());
                let tile = Action::Tile { key: self.spec_key(), at };
                let outline = Action::Outline { key: self.spec_key(), at };
                Outcome {
                    node: self,
                    actions: if debug_on {
                        seq![tile, outline]
                    } else {
                        seq![tile]
                    },
                    complete: true,
                    draws: 1,
                }
            },
            _ => self.generate_img_spec(ready),
        }
    }

    /// What passing over a node unseen comes to: nothing.
    pub open spec fn skipped(self) -> Outcome {
        Outcome { node: self, actions: Seq::empty(), complete: true, draws: 0 }
    }

    /// The node with the children that a walk has left.
    pub open spec fn walked(self, walk: Walk) -> FractalNode {
        FractalNode { sub_nodes: Some(Box::new(walk.sub_nodes)), ..self }
    }

    /// What a node makes of the walk of its children: it keeps them, and if
    /// one of them is not complete it paints its own tile after them.
    pub open spec fn after_walk(
        self,
        walk: Walk,
        view: Viewport,
        ready: Seq<TileKey>,
        debug_on: bool,
    ) -> Outcome {
        let walked = self.walked(walk);
        if walk.complete {
            Outcome { node: walked, actions: walk.actions, complete: true, draws: walk.draws }
        } else {
            let stand_in = walked.display_spec(view, ready, debug_on);
            Outcome {
                node: stand_in.node,
                actions: walk.actions + stand_in.actions,
                complete: walk.complete && stand_in.complete,
                draws: walk.draws + stand_in.draws,
            }
        }
    }

    /// What a frame's walk of the subtree comes to.
    ///
    /// A node fine enough for the screen paints its own tile. Any other node
    /// is split if it is not yet, and its children are visited; if one of
    /// them is not complete, the node paints its own tile after them as a
    /// stand-in. The subtree is complete when all visited children are and
    /// no stand-in failed.
    pub open spec fn draw_spec(self, view: Viewport, ready: Seq<TileKey>, debug_on: bool)
        -> Outcome
        decreases self.spec_region().side(), 0int,
        when self.wf()
    {
        if view.spec_fits_tile(self.spec_region()) {
            self.display_spec(view, ready, debug_on)
        } else {
            self.after_walk(
                self.sub_nodes_or_fresh().walk_spec(view, ready, debug_on),
                view,
                ready,
                debug_on,
            )
        }
    }

    /// What a frame's visit of a child comes to: its walk if it is on
    /// screen, nothing if it is not.
    pub open spec fn visit_spec(self, view: Viewport, ready: Seq<TileKey>, debug_on: bool)
        -> Outcome
        decreases self.spec_region().side(), 1int,
        when self.wf()
    {
        if view.spec_sees(self.spec_region()) {
            self.draw_spec(view, ready, debug_on)
        } else {
            self.skipped()
        }
    }

    /// Painting a node's own tile, or asking for it, changes nothing but the
    /// state of the tile.
    pub proof fn lemma_display_keeps_shape(
        self,
        view: Viewport,
        ready: Seq<TileKey>,
        debug_on: bool,
    )
        requires
            self.wf(),
        ensures
            self.display_spec(view, ready, debug_on).node == (FractalNode {
                state: self.display_spec(view, ready, debug_on).node.state,
                ..self
            }),
            self.display_spec(view, ready, debug_on).node.wf(),
    {
    }

    /// Every action of painting or asking for a node's own tile is about that
    /// tile, and a tile is painted or outlined only if it is kept.
    pub proof fn lemma_display_action(
        self,
        view: Viewport,
        ready: Seq<TileKey>,
        debug_on: bool,
        i: int,
    )
        requires
            0 <= i < self.display_spec(view, ready, debug_on).actions.len(),
        ensures
            self.display_spec(view, ready, debug_on).actions[i].key() == self.spec_key(),
            self.display_spec(view, ready, debug_on).actions[i] is Tile || self.display_spec(
                view,
                ready,
                debug_on,
            ).actions[i] is Outline ==> self.state is Tiled,
    {
    }

    /// The actions of a node too coarse for the screen are those of the walk
    /// of its children, followed by those of painting or asking for its own
    /// tile.
    pub proof fn lemma_after_walk_action(
        self,
        walk: Walk,
        view: Viewport,
        ready: Seq<TileKey>,
        debug_on: bool,
        i: int,
    )
        requires
            0 <= i < self.after_walk(walk, view, ready, debug_on).actions.len(),
        ensures
            i < walk.actions.len() ==> self.after_walk(walk, view, ready, debug_on).actions[i]
                == walk.actions[i],
            i >= walk.actions.len() ==> {
                let action = self.after_walk(walk, view, ready, debug_on).actions[i];
                &&& !walk.complete
                &&& action.key() == self.spec_key()
                &&& action is Tile || action is Outline ==> self.state is Tiled
            },
    {
        if !walk.complete && i >= walk.actions.len() {
            self.walked(walk).lemma_display_action(view, ready, debug_on, i - walk.actions.len());
        }
    }

    /// The root of a new tree for the constant `complex_const`: the root
    /// square, with no tile and no children.
    pub fn new(complex_const: (i64, i64)) -> (out: FractalNode)
        ensures
            out == FractalNode::fresh(complex_const, Region::spec_root()),
            out.wf(),
    {
        let root = Region::root();
        FractalNode {
            complex_const,
            state: TileState::Empty,
            x_range: root.x_range,
            y_range: root.y_range,
            sub_nodes: None,
        }
    }

    /// Discards the tree and starts a new one for `complex_const`.
    pub fn reset(&mut self, complex_const: (i64, i64))
        ensures
            *final(self) == FractalNode::fresh(complex_const, Region::spec_root()),
            final(self).wf(),
    {
        *self = FractalNode::new(complex_const);
    }

    /// Decides [`FractalNode::wf`], by a walk of the whole tree.
    pub fn is_wf(&self) -> (out: bool)
        ensures
            out == self.wf(),
        decreases self,
    {
        let region = self.region();
        if !region.is_wf() || !is_dyadic(region.width()) {
            return false;
        }
        match &self.sub_nodes {
            None => true,
            Some(kids) => {
                if region.width() < 2 * MIN_WIDTH {
                    return false;
                }
                proof {
                    lemma_dyadic_halves(region.side());
                }
                let q: Quadrants = region.quadrants();
                self.holds(&kids.top_left, &q.top_left) && self.holds(&kids.top_right, &q.top_right)
                    && self.holds(&kids.bottom_left, &q.bottom_left) && self.holds(
                    &kids.bottom_right,
                    &q.bottom_right,
                ) && kids.top_left.is_wf() && kids.top_right.is_wf() && kids.bottom_left.is_wf()
                    && kids.bottom_right.is_wf()
            },
        }
    }

    /// Whether `child` sits on `region` and shares the node's constant.
    fn holds(&self, child: &FractalNode, region: &Region) -> (out: bool)
        ensures
            out == (child.spec_region() == *region && child.complex_const == self.complex_const),
    {
        child.x_range == region.x_range && child.y_range == region.y_range
            && child.complex_const.0 == self.complex_const.0 && child.complex_const.1
            == self.complex_const.1
    }

    /// The region of the node.
    pub fn region(&self) -> (out: Region)
        ensures
            out == self.spec_region(),
    {
        Region { x_range: self.x_range, y_range: self.y_range }
    }

    /// The key of the node's own tile.
    pub fn key(&self) -> (out: TileKey)
        ensures
            out == self.spec_key(),
    {
        TileKey { complex_const: self.complex_const, region: self.region() }
    }

    /// Splits the node: it gets four fresh children on the quadrants of its
    /// region.
    pub fn generate_sub_nodes(&mut self)
        requires
            old(self).wf(),
            old(self).sub_nodes is None,
            old(self).spec_region().side() >= 2 * MIN_WIDTH,
        ensures
            final(self).wf(),
            final(self).sub_nodes == Some(Box::new(old(self).fresh_sub_nodes())),
            final(self).complex_const == old(self).complex_const,
            final(self).state == old(self).state,
            final(self).spec_region() == old(self).spec_region(),
    {
        proof {
            lemma_dyadic_halves(self.spec_region().side());
        }
        let q: Quadrants = self.region().quadrants();
        self.sub_nodes = Some(
            Box::new(
                SubNodes {
                    top_left: self.child(&q.top_left),
                    top_right: self.child(&q.top_right),
                    bottom_left: self.child(&q.bottom_left),
                    bottom_right: self.child(&q.bottom_right),
                },
            ),
        );
        proof {
            let kids = self.sub_nodes->0;
            assert(kids.top_left.wf());
            assert(kids.top_right.wf());
            assert(kids.bottom_left.wf());
            assert(kids.bottom_right.wf());
        }
    }

    /// A fresh child of the node on `region`.
    fn child(&self, region: &Region) -> (out: FractalNode)
        ensures
            out == FractalNode::fresh(self.complex_const, *region),
    {
        FractalNode {
            complex_const: self.complex_const,
            state: TileState::Empty,
            x_range: region.x_range,
            y_range: region.y_range,
            sub_nodes: None,
        }
    }

    /// Asks for the node's tile, if it is not kept yet.
    ///
    /// The first call starts a worker. Later calls look for the worker's
    /// tile among `ready` and take it when it is there. Once the tile is
    /// kept, nothing more happens.
    pub fn generate_img(&mut self, ready: &Vec<TileKey>, actions: &mut Vec<Action>)
        ensures
            *final(self) == old(self).generate_img_spec(ready@).node,
            final(actions)@ == old(actions)@ + old(self).generate_img_spec(ready@).actions,
    {
        match self.state {
            TileState::Empty => {
                actions.push(Action::Spawn { key: self.key() });
                self.state = TileState::Computing;
            },
            TileState::Computing => {
                let key = self.key();
                if is_ready(ready, &key) {
                    actions.push(Action::Store { key });
                    self.state = TileState::Tiled;
                }
            },
            TileState::Tiled => {},
        }
        assert(final(actions)@ =~= old(actions)@ + old(self).generate_img_spec(ready@).actions);
    }

    /// Paints the node's own tile if it is kept, and asks for it if not.
    ///
    /// Returns whether the tile was painted.
    pub fn display(
        &mut self,
        view: &Viewport,
        ready: &Vec<TileKey>,
        debug: &mut Debug,
        actions: &mut Vec<Action>,
    ) -> (shown: bool)
        requires
            old(self).spec_region().wf(),
            view.wf(),
        ensures
            *final(self) == old(self).display_spec(*view, ready@, old(debug).is_debug).node,
            final(actions)@ == old(actions)@ + old(self).display_spec(
                *view,
                ready@,
                old(debug).is_debug,
            ).actions,
            shown == old(self).display_spec(*view, ready@, old(debug).is_debug).complete,
            final(debug).is_debug == old(debug).is_debug,
            final(debug).draw_count == saturate(
                old(debug).draw_count + old(self).display_spec(
                    *view,
                    ready@,
                    old(debug).is_debug,
                ).draws,
            ),
    {
        match self.state {
            TileState::Tiled => {
                if debug.draw_count < u32::MAX {
                    debug.draw_count = debug.draw_count + 1;
                }
                let key = self.key();
                let at = view.placement(&key.region);
                actions.push(Action::Tile { key, at });
                if debug.is_debug {
                    actions.push(Action::Outline { key, at });
                }
                assert(final(actions)@ =~= old(actions)@ + old(self).display_spec(
                    *view,
                    ready@,
                    old(debug).is_debug,
                ).actions);
                true
            },
            _ => {
                self.generate_img(ready, actions);
                false
            },
        }
    }

    /// Walks a child: draws it if it is on screen, passes over it if not.
    fn visit(
        &mut self,
        view: &Viewport,
        ready: &Vec<TileKey>,
        debug: &mut Debug,
        actions: &mut Vec<Action>,
    ) -> (complete: bool)
        requires
            old(self).wf(),
            view.wf(),
        ensures
            final(self).wf(),
            final(self).spec_region() == old(self).spec_region(),
            final(self).complex_const == old(self).complex_const,
            *final(self) == old(self).visit_spec(*view, ready@, old(debug).is_debug).node,
            final(actions)@ == old(actions)@ + old(self).visit_spec(
                *view,
                ready@,
                old(debug).is_debug,
            ).actions,
            complete == old(self).visit_spec(*view, ready@, old(debug).is_debug).complete,
            final(debug).is_debug == old(debug).is_debug,
            final(debug).draw_count == saturate(
                old(debug).draw_count + old(self).visit_spec(
                    *view,
                    ready@,
                    old(debug).is_debug,
                ).draws,
            ),
        decreases old(self).spec_region().side(), 4int,
    {
        let region = self.region();
        if view.sees(&region) {
            self.draw(view, ready, debug, actions)
        } else {
            assert(final(actions)@ =~= old(actions)@ + old(self).skipped().actions);
            true
        }
    }

    /// Draws the subtree for one frame.
    ///
    /// `ready` lists the tiles whose workers have finished since they were
    /// started. The actions of the frame are appended to `actions` in the
    /// order in which the host is to carry them out, and every painted tile
    /// is counted in `debug`, whose counter stops at its largest value.
    ///
    /// Returns whether the subtree is shown at full detail: every child on
    /// screen is, and no node had to stand in for its children.
    pub fn draw(
        &mut self,
        view: &Viewport,
        ready: &Vec<TileKey>,
        debug: &mut Debug,
        actions: &mut Vec<Action>,
    ) -> (complete: bool)
        requires
            old(self).wf(),
            view.wf(),
        ensures
            final(self).wf(),
            final(self).spec_region() == old(self).spec_region(),
            final(self).complex_const == old(self).complex_const,
            final(self).sub_nodes is Some <==> old(self).sub_nodes is Some || !view.spec_fits_tile(
                old(self).spec_region(),
            ),
            *final(self) == old(self).draw_spec(*view, ready@, old(debug).is_debug).node,
            final(actions)@ == old(actions)@ + old(self).draw_spec(
                *view,
                ready@,
                old(debug).is_debug,
            ).actions,
            complete == old(self).draw_spec(*view, ready@, old(debug).is_debug).complete,
            final(debug).is_debug == old(debug).is_debug,
            final(debug).draw_count == saturate(
                old(debug).draw_count + old(self).draw_spec(
                    *view,
                    ready@,
                    old(debug).is_debug,
                ).draws,
            ),
        decreases old(self).spec_region().side(), 3int,
    {
        let region = self.region();
        if view.fits_tile(&region) {
            proof {
                self.lemma_display_keeps_shape(*view, ready@, debug.is_debug);
            }
            return self.display(view, ready, debug, actions);
        }
        self.draw_coarse(view, ready, debug, actions)
    }

    /// Draws a node too coarse for the screen: walks its children, and
    /// paints its own tile after them if one of them is not complete.
    fn draw_coarse(
        &mut self,
        view: &Viewport,
        ready: &Vec<TileKey>,
        debug: &mut Debug,
        actions: &mut Vec<Action>,
    ) -> (complete: bool)
        requires
            old(self).wf(),
            view.wf(),
            !view.spec_fits_tile(old(self).spec_region()),
        ensures
            final(self).wf(),
            final(self).spec_key() == old(self).spec_key(),
            final(self).sub_nodes is Some,
            ({
                let after = old(self).after_walk(
                    old(self).sub_nodes_or_fresh().walk_spec(*view, ready@, old(debug).is_debug),
                    *view,
                    ready@,
                    old(debug).is_debug,
                );
                &&& *final(self) == after.node
                &&& final(actions)@ == old(actions)@ + after.actions
                &&& complete == after.complete
                &&& final(debug).is_debug == old(debug).is_debug
                &&& final(debug).draw_count == saturate(old(debug).draw_count + after.draws)
            }),
        decreases old(self).spec_region().side(), 2int,
    {
        let ghost walk = self.sub_nodes_or_fresh().walk_spec(*view, ready@, debug.is_debug);
        let complete = self.walk_sub_nodes(view, ready, debug, actions);
        if !complete {
            let ghost walked = *self;
            proof {
                walked.lemma_display_keeps_shape(*view, ready@, debug.is_debug);
                let stand_in = walked.display_spec(*view, ready@, debug.is_debug);
                lemma_append_assoc(old(actions)@, walk.actions, stand_in.actions);
                lemma_saturate_sum(old(debug).draw_count as int, walk.draws, stand_in.draws);
            }
            let shown = self.display(view, ready, debug, actions);
            return complete && shown;
        }
        complete
    }

    /// Splits the node if it is not split yet, and walks its children.
    fn walk_sub_nodes(
        &mut self,
        view: &Viewport,
        ready: &Vec<TileKey>,
        debug: &mut Debug,
        actions: &mut Vec<Action>,
    ) -> (complete: bool)
        requires
            old(self).wf(),
            view.wf(),
            !view.spec_fits_tile(old(self).spec_region()),
        ensures
            final(self).wf(),
            *final(self) == (FractalNode {
                sub_nodes: Some(
                    Box::new(
                        old(self).sub_nodes_or_fresh().walk_spec(
                            *view,
                            ready@,
                            old(debug).is_debug,
                        ).sub_nodes,
                    ),
                ),
                ..*old(self)
            }),
            final(actions)@ == old(actions)@ + old(self).sub_nodes_or_fresh().walk_spec(
                *view,
                ready@,
                old(debug).is_debug,
            ).actions,
            complete == old(self).sub_nodes_or_fresh().walk_spec(
                *view,
                ready@,
                old(debug).is_debug,
            ).complete,
            final(debug).is_debug == old(debug).is_debug,
            final(debug).draw_count == saturate(
                old(debug).draw_count + old(self).sub_nodes_or_fresh().walk_spec(
                    *view,
                    ready@,
                    old(debug).is_debug,
                ).draws,
            ),
        decreases old(self).spec_region().side(), 1int,
    {
        assert(self.spec_region().side() >= 2 * MIN_WIDTH) by (nonlinear_arith)
            requires
                self.spec_region().side() >= IMG_SIZE * view.scale,
                view.scale >= 1,
                IMG_SIZE == 250,
                MIN_WIDTH == 125,
        ;
        if self.sub_nodes.is_none() {
            self.generate_sub_nodes();
        }
        let mut complete = true;
        match &mut self.sub_nodes {
            Some(children) => {
                complete = children.walk(view, ready, debug, actions);
            },
            None => {},
        }
        complete
    }
}

impl SubNodes {
    /// What a frame's walk of four children comes to: each is visited in
    /// turn, top left, top right, bottom left, bottom right.
    pub open spec fn walk_spec(self, view: Viewport, ready: Seq<TileKey>, debug_on: bool) -> Walk
        decreases self.top_left.spec_region().side(), 2int,
        when self.wf()
    {
        let a = self.top_left.visit_spec(view, ready, debug_on);
        let b = self.top_right.visit_spec(view, ready, debug_on);
        let c = self.bottom_left.visit_spec(view, ready, debug_on);
        let d = self.bottom_right.visit_spec(view, ready, debug_on);
        Walk {
            sub_nodes: SubNodes {
                top_left: a.node,
                top_right: b.node,
                bottom_left: c.node,
                bottom_right: d.node,
            },
            actions: a.actions + b.actions + c.actions + d.actions,
            complete: a.complete && b.complete && c.complete && d.complete,
            draws: a.draws + b.draws + c.draws + d.draws,
        }
    }

    /// The keys of the four children, in their order.
    pub open spec fn keys(self) -> (TileKey, TileKey, TileKey, TileKey) {
        (
            self.top_left.spec_key(),
            self.top_right.spec_key(),
            self.bottom_left.spec_key(),
            self.bottom_right.spec_key(),
        )
    }

    /// Whether the children sit on the quadrants of the region of `key`, in
    /// their places, and share its constant.
    pub open spec fn sits_on(self, key: TileKey) -> bool {
        let q = key.region.spec_quadrants();
        &&& self.top_left.spec_key() == (TileKey {
            complex_const: key.complex_const,
            region: q.top_left,
        })
        &&& self.top_right.spec_key() == (TileKey {
            complex_const: key.complex_const,
            region: q.top_right,
        })
        &&& self.bottom_left.spec_key() == (TileKey {
            complex_const: key.complex_const,
            region: q.bottom_left,
        })
        &&& self.bottom_right.spec_key() == (TileKey {
            complex_const: key.complex_const,
            region: q.bottom_right,
        })
    }

    /// Four children are well formed when each is and all have the same
    /// side.
    pub open spec fn wf(self) -> bool {
        &&& self.top_left.wf()
        &&& self.top_right.wf()
        &&& self.bottom_left.wf()
        &&& self.bottom_right.wf()
        &&& self.top_right.spec_region().side() == self.top_left.spec_region().side()
        &&& self.bottom_left.spec_region().side() == self.top_left.spec_region().side()
        &&& self.bottom_right.spec_region().side() == self.top_left.spec_region().side()
    }

    /// Visits the four children in turn.
    fn walk(
        &mut self,
        view: &Viewport,
        ready: &Vec<TileKey>,
        debug: &mut Debug,
        actions: &mut Vec<Action>,
    ) -> (complete: bool)
        requires
            old(self).wf(),
            view.wf(),
        ensures
            final(self).wf(),
            final(self).top_left.spec_key() == old(self).top_left.spec_key(),
            final(self).top_right.spec_key() == old(self).top_right.spec_key(),
            final(self).bottom_left.spec_key() == old(self).bottom_left.spec_key(),
            final(self).bottom_right.spec_key() == old(self).bottom_right.spec_key(),
            *final(self) == old(self).walk_spec(*view, ready@, old(debug).is_debug).sub_nodes,
            final(actions)@ == old(actions)@ + old(self).walk_spec(
                *view,
                ready@,
                old(debug).is_debug,
            ).actions,
            complete == old(self).walk_spec(*view, ready@, old(debug).is_debug).complete,
            final(debug).is_debug == old(debug).is_debug,
            final(debug).draw_count == saturate(
                old(debug).draw_count + old(self).walk_spec(
                    *view,
                    ready@,
                    old(debug).is_debug,
                ).draws,
            ),
        decreases old(self).top_left.spec_region().side(), 5int,
    {
        let ghost a = self.top_left.visit_spec(*view, ready@, debug.is_debug);
        let ghost b = self.top_right.visit_spec(*view, ready@, debug.is_debug);
        let ghost c = self.bottom_left.visit_spec(*view, ready@, debug.is_debug);
        let ghost d = self.bottom_right.visit_spec(*view, ready@, debug.is_debug);
        let ghost count: int = debug.draw_count as int;
        let first = self.top_left.visit(view, ready, debug, actions);
        let second = self.top_right.visit(view, ready, debug, actions);
        proof {
            lemma_append_assoc(old(actions)@, a.actions, b.actions);
            lemma_saturate_sum(count, a.draws, b.draws);
        }
        let third = self.bottom_left.visit(view, ready, debug, actions);
        proof {
            lemma_append_assoc(old(actions)@, a.actions + b.actions, c.actions);
            lemma_saturate_sum(count, a.draws + b.draws, c.draws);
        }
        let fourth = self.bottom_right.visit(view, ready, debug, actions);
        proof {
            lemma_append_assoc(old(actions)@, a.actions + b.actions + c.actions, d.actions);
            lemma_saturate_sum(count, a.draws + b.draws + c.draws, d.draws);
        }
        first && second && third && fourth
    }
}

/// Computes the tile of `key` as it is shown on screen: the standard tile
/// size and budget, two by two samples to the pixel, and the gradient from
/// black through blue and magenta to red.
///
/// This is the work of a worker started for [`Action::Spawn`].
pub fn render_tile(key: &TileKey) -> (img: image::DynamicImage)
    requires
        key.region.wf(),
    ensures
        image_is_rgb8(img),
        image_pixels(img) == (Sampling {
            region: key.region,
            complex_const: key.complex_const,
            resolution: IMG_SIZE,
            max_iter: MAX_ITER,
            multisample: MULTISAMPLE_SIZE,
        }).pixels(heat_stops()),
{
    let mapper = ColorMapper::heat();
    rasterize(&key.region, key.complex_const, IMG_SIZE, MAX_ITER, MULTISAMPLE_SIZE, &mapper)
}

/// Appending is associative.
proof fn lemma_append_assoc(x: Seq<Action>, a: Seq<Action>, b: Seq<Action>)
    ensures
        (x + a) + b == x + (a + b),
{
    assert((x + a) + b =~= x + (a + b));
}

/// Counting in two steps stops at the same value as counting at once.
proof fn lemma_saturate_sum(count: int, first: nat, second: nat)
    requires
        0 <= count <= u32::MAX,
    ensures
        saturate(saturate(count + first) + second) == saturate(count + first + second),
{
}

/// Compares two keys.
fn same_key(a: &TileKey, b: &TileKey) -> (out: bool)
    ensures
        out == (*a == *b),
{
    a.complex_const.0 == b.complex_const.0 && a.complex_const.1 == b.complex_const.1 && a.region
        == b.region
}

/// Looks for `key` among the finished tiles.
fn is_ready(ready: &Vec<TileKey>, key: &TileKey) -> (out: bool)
    ensures
        out == ready@.contains(*key),
{
    let mut i: usize = 0;
    while i < ready.len()
        invariant
            i <= ready.len(),
            forall|j: int| 0 <= j < i ==> ready@[j] != *key,
        decreases ready.len() - i,
    {
        if same_key(&ready[i], key) {
            return true;
        }
        i = i + 1;
    }
    false
}

} // verus!
